//! Transmission of monoradar target reports (category 048).
use vstd::prelude::*;

use crate::data_item::{
    ACASResolutionAdvisoryReport, AircraftAddress, AircraftIdentification,
    CalculatedPositionCartesianCorr, CalculatedTrackVelocity,
    CommunicationsCapabilityFlightStatus, DataSourceIdentifier,
    FlightLevelInBinaryRepresentation, HeightMeasuredBy3dRadar,
    MeasuredPositionInPolarCoordinates, Mode1CodeConfidenceIndicator,
    Mode1CodeOctalRepresentation, Mode2CodeConfidenceIndicator, Mode2CodeOctalRepresentation,
    Mode3ACodeConfidenceIndicator, Mode3ACodeInOctalRepresentation,
    ModeCCodeAndConfidenceIndicator, ModeSMBData, RadarPlotCharacteristics, RadialDopplerSpeed,
    TargetReportDescriptor, TimeOfDay, TrackNumber, TrackQuality, TrackStatus,
    WarningErrorConditionsTargetClass,
};
use crate::fspec::{
    add_fx, bit_set, chain_end, chain_ok, finalized_fspec, fspec_bit, fspec_minimal,
    is_fspec, lemma_finalized_bits, lemma_fx_strip, lemma_octet_bits,
    lemma_octet_reconstruct, lemma_trim_zeros, read_fspec_chain, trim_fspec, trim_zeros,
    with_fx,
};
use crate::wire::{
    lemma_seq_add_assoc, lemma_seq_add_empty, lemma_subrange_join, opt_enc, opt_wf, pbit,
};
use crate::AsterixError;

verus! {

/// Transmission of monoradar target reports (category 048).
#[derive(Debug, Clone, PartialEq)]
pub struct Cat48 {
    /// FSPEC presence map, as read from the wire or as rebuilt by
    /// `update_fspec`.
    pub fspec: Vec<u8>,
    /// FRN 1
    pub data_source_identifier: Option<DataSourceIdentifier>,
    /// FRN 2
    pub time_of_day: Option<TimeOfDay>,
    /// FRN 3
    pub target_report_descriptor: Option<TargetReportDescriptor>,
    /// FRN 4
    pub measured_position_in_polar_coordinates: Option<MeasuredPositionInPolarCoordinates>,
    /// FRN 5
    pub mode_3_a_code_in_octal_representation: Option<Mode3ACodeInOctalRepresentation>,
    /// FRN 6
    pub flight_level_in_binary_repre: Option<FlightLevelInBinaryRepresentation>,
    /// FRN 7
    pub radar_plot_characteristics: Option<RadarPlotCharacteristics>,
    /// FRN 8
    pub aircraft_address: Option<AircraftAddress>,
    /// FRN 9
    pub aircraft_identification: Option<AircraftIdentification>,
    /// FRN 10
    pub mode_smb_data: Option<ModeSMBData>,
    /// FRN 11
    pub track_number: Option<TrackNumber>,
    /// FRN 12
    pub calculated_position_cartesian_coor: Option<CalculatedPositionCartesianCorr>,
    /// FRN 13
    pub calculated_track_velocity: Option<CalculatedTrackVelocity>,
    /// FRN 14
    pub track_status: Option<TrackStatus>,
    /// FRN 15
    pub track_quality: Option<TrackQuality>,
    /// FRN 16
    pub warning_error_con_target_class: Option<WarningErrorConditionsTargetClass>,
    /// FRN 17
    pub mode3a_code_confidence_indicator: Option<Mode3ACodeConfidenceIndicator>,
    /// FRN 18
    pub modec_code_and_confidence_indicator: Option<ModeCCodeAndConfidenceIndicator>,
    /// FRN 19
    pub height_measured_by_3d_radar: Option<HeightMeasuredBy3dRadar>,
    /// FRN 20
    pub radial_doppler_speed: Option<RadialDopplerSpeed>,
    /// FRN 21
    pub communications_capability_flight_status: Option<CommunicationsCapabilityFlightStatus>,
    /// FRN 22
    pub acas_resolution_advisory_report: Option<ACASResolutionAdvisoryReport>,
    /// FRN 23
    pub mode_1_code_octal_representation: Option<Mode1CodeOctalRepresentation>,
    /// FRN 24
    pub mode_2_code_octal_representation: Option<Mode2CodeOctalRepresentation>,
    /// FRN 25
    pub mode_1_code_confidence: Option<Mode1CodeConfidenceIndicator>,
    /// FRN 26
    pub mode_2_code_confidence: Option<Mode2CodeConfidenceIndicator>,
}

/// In the draft presence map derived from item presence, every FX bit
/// is clear and each FRN bit is set exactly when its item is present.
#[verifier::rlimit(100)]
#[verifier::spinoff_prover]
proof fn lemma_raw_bits(c: Cat48)
    ensures
        forall|i: int| 0 <= i < c.raw_fspec().len() ==> #[trigger] c.raw_fspec()[i] & 1 == 0,
        forall|k: int| 1 <= k <= 26 ==> (fspec_bit(c.raw_fspec(), k) <==> c.item_present(k)),
{
    lemma_octet_bits(
        pbit(c.data_source_identifier, 0x80),
        pbit(c.time_of_day, 0x40),
        pbit(c.target_report_descriptor, 0x20),
        pbit(c.measured_position_in_polar_coordinates, 0x10),
        pbit(c.mode_3_a_code_in_octal_representation, 0x08),
        pbit(c.flight_level_in_binary_repre, 0x04),
        pbit(c.radar_plot_characteristics, 0x02),
    );
    lemma_octet_bits(
        pbit(c.aircraft_address, 0x80),
        pbit(c.aircraft_identification, 0x40),
        pbit(c.mode_smb_data, 0x20),
        pbit(c.track_number, 0x10),
        pbit(c.calculated_position_cartesian_coor, 0x08),
        pbit(c.calculated_track_velocity, 0x04),
        pbit(c.track_status, 0x02),
    );
    lemma_octet_bits(
        pbit(c.track_quality, 0x80),
        pbit(c.warning_error_con_target_class, 0x40),
        pbit(c.mode3a_code_confidence_indicator, 0x20),
        pbit(c.modec_code_and_confidence_indicator, 0x10),
        pbit(c.height_measured_by_3d_radar, 0x08),
        pbit(c.radial_doppler_speed, 0x04),
        pbit(c.communications_capability_flight_status, 0x02),
    );
    lemma_octet_bits(
        pbit(c.acas_resolution_advisory_report, 0x80),
        pbit(c.mode_1_code_octal_representation, 0x40),
        pbit(c.mode_2_code_octal_representation, 0x20),
        pbit(c.mode_1_code_confidence, 0x10),
        pbit(c.mode_2_code_confidence, 0x08),
        0,
        0,
    );
    assert forall|i: int|
        0 <= i < c.raw_fspec().len() implies #[trigger] c.raw_fspec()[i] & 1 == 0 by {
        assert(c.raw_fspec().len() == 4);
    }
    assert forall|k: int|
        1 <= k <= 26 implies (fspec_bit(c.raw_fspec(), k) <==> c.item_present(k)) by {
        let j = crate::fspec::frn_octet(k);
        if k <= 7 {
            assert(j == 0);
        } else if k <= 14 {
            assert(j == 1);
        } else if k <= 21 {
            assert(j == 2);
        } else if k <= 28 {
            assert(j == 3);
        }
    }
}

/// The presence map derived from item presence is minimal and asserts
/// an FRN exactly when its Data Item is present.
#[verifier::rlimit(100)]
#[verifier::spinoff_prover]
proof fn lemma_derived_props(c: Cat48)
    ensures
        fspec_minimal(finalized_fspec(c.raw_fspec())),
        forall|k: int|
            1 <= k <= 26 ==> (fspec_bit(finalized_fspec(c.raw_fspec()), k) <==> c.item_present(
            k)),
{
    lemma_raw_bits(c);
    lemma_finalized_bits(c.raw_fspec());
}

/// Octet 0 of a presence map whose bits agree with item presence
/// holds exactly the derived item bits, or lies beyond the map's end
/// and then no item of the octet is present.
#[verifier::rlimit(100)]
#[verifier::spinoff_prover]
proof fn lemma_octet_match_0(c: Cat48)
    requires
        c.presence_matches(),
        c.fspec_wire_shape(),
    ensures
        0 < c.fspec@.len() ==> c.raw_fspec()[0] == (c.fspec@[0] & 0xfe),
        c.fspec@.len() <= 0 ==> c.raw_fspec()[0] == 0,
{
    let f = c.fspec@;
    if 0 < f.len() {
        assert(fspec_bit(f, 1) <==> c.item_present(1));
        assert(c.item_present(1) <==> c.data_source_identifier is Some);
        assert(fspec_bit(f, 2) <==> c.item_present(2));
        assert(c.item_present(2) <==> c.time_of_day is Some);
        assert(fspec_bit(f, 3) <==> c.item_present(3));
        assert(c.item_present(3) <==> c.target_report_descriptor is Some);
        assert(fspec_bit(f, 4) <==> c.item_present(4));
        assert(c.item_present(4) <==> c.measured_position_in_polar_coordinates is Some);
        assert(fspec_bit(f, 5) <==> c.item_present(5));
        assert(c.item_present(5) <==> c.mode_3_a_code_in_octal_representation is Some);
        assert(fspec_bit(f, 6) <==> c.item_present(6));
        assert(c.item_present(6) <==> c.flight_level_in_binary_repre is Some);
        assert(fspec_bit(f, 7) <==> c.item_present(7));
        assert(c.item_present(7) <==> c.radar_plot_characteristics is Some);
        lemma_octet_reconstruct(
            pbit(c.data_source_identifier, 0x80),
            pbit(c.time_of_day, 0x40),
            pbit(c.target_report_descriptor, 0x20),
            pbit(c.measured_position_in_polar_coordinates, 0x10),
            pbit(c.mode_3_a_code_in_octal_representation, 0x08),
            pbit(c.flight_level_in_binary_repre, 0x04),
            pbit(c.radar_plot_characteristics, 0x02),
            f[0],
        );
        assert(c.raw_fspec()[0] == (f[0] & 0xfe));
    } else {
        assert(fspec_bit(f, 1) <==> c.item_present(1));
        assert(!fspec_bit(f, 1));
        assert(fspec_bit(f, 2) <==> c.item_present(2));
        assert(!fspec_bit(f, 2));
        assert(fspec_bit(f, 3) <==> c.item_present(3));
        assert(!fspec_bit(f, 3));
        assert(fspec_bit(f, 4) <==> c.item_present(4));
        assert(!fspec_bit(f, 4));
        assert(fspec_bit(f, 5) <==> c.item_present(5));
        assert(!fspec_bit(f, 5));
        assert(fspec_bit(f, 6) <==> c.item_present(6));
        assert(!fspec_bit(f, 6));
        assert(fspec_bit(f, 7) <==> c.item_present(7));
        assert(!fspec_bit(f, 7));
        lemma_octet_bits(
            pbit(c.data_source_identifier, 0x80),
            pbit(c.time_of_day, 0x40),
            pbit(c.target_report_descriptor, 0x20),
            pbit(c.measured_position_in_polar_coordinates, 0x10),
            pbit(c.mode_3_a_code_in_octal_representation, 0x08),
            pbit(c.flight_level_in_binary_repre, 0x04),
            pbit(c.radar_plot_characteristics, 0x02),
        );
        assert(c.raw_fspec()[0] == 0);
    }
}

/// Octet 1 of a presence map whose bits agree with item presence
/// holds exactly the derived item bits, or lies beyond the map's end
/// and then no item of the octet is present.
#[verifier::rlimit(100)]
#[verifier::spinoff_prover]
proof fn lemma_octet_match_1(c: Cat48)
    requires
        c.presence_matches(),
        c.fspec_wire_shape(),
    ensures
        1 < c.fspec@.len() ==> c.raw_fspec()[1] == (c.fspec@[1] & 0xfe),
        c.fspec@.len() <= 1 ==> c.raw_fspec()[1] == 0,
{
    let f = c.fspec@;
    if 1 < f.len() {
        assert(fspec_bit(f, 8) <==> c.item_present(8));
        assert(c.item_present(8) <==> c.aircraft_address is Some);
        assert(fspec_bit(f, 9) <==> c.item_present(9));
        assert(c.item_present(9) <==> c.aircraft_identification is Some);
        assert(fspec_bit(f, 10) <==> c.item_present(10));
        assert(c.item_present(10) <==> c.mode_smb_data is Some);
        assert(fspec_bit(f, 11) <==> c.item_present(11));
        assert(c.item_present(11) <==> c.track_number is Some);
        assert(fspec_bit(f, 12) <==> c.item_present(12));
        assert(c.item_present(12) <==> c.calculated_position_cartesian_coor is Some);
        assert(fspec_bit(f, 13) <==> c.item_present(13));
        assert(c.item_present(13) <==> c.calculated_track_velocity is Some);
        assert(fspec_bit(f, 14) <==> c.item_present(14));
        assert(c.item_present(14) <==> c.track_status is Some);
        lemma_octet_reconstruct(
            pbit(c.aircraft_address, 0x80),
            pbit(c.aircraft_identification, 0x40),
            pbit(c.mode_smb_data, 0x20),
            pbit(c.track_number, 0x10),
            pbit(c.calculated_position_cartesian_coor, 0x08),
            pbit(c.calculated_track_velocity, 0x04),
            pbit(c.track_status, 0x02),
            f[1],
        );
        assert(c.raw_fspec()[1] == (f[1] & 0xfe));
    } else {
        assert(fspec_bit(f, 8) <==> c.item_present(8));
        assert(!fspec_bit(f, 8));
        assert(fspec_bit(f, 9) <==> c.item_present(9));
        assert(!fspec_bit(f, 9));
        assert(fspec_bit(f, 10) <==> c.item_present(10));
        assert(!fspec_bit(f, 10));
        assert(fspec_bit(f, 11) <==> c.item_present(11));
        assert(!fspec_bit(f, 11));
        assert(fspec_bit(f, 12) <==> c.item_present(12));
        assert(!fspec_bit(f, 12));
        assert(fspec_bit(f, 13) <==> c.item_present(13));
        assert(!fspec_bit(f, 13));
        assert(fspec_bit(f, 14) <==> c.item_present(14));
        assert(!fspec_bit(f, 14));
        lemma_octet_bits(
            pbit(c.aircraft_address, 0x80),
            pbit(c.aircraft_identification, 0x40),
            pbit(c.mode_smb_data, 0x20),
            pbit(c.track_number, 0x10),
            pbit(c.calculated_position_cartesian_coor, 0x08),
            pbit(c.calculated_track_velocity, 0x04),
            pbit(c.track_status, 0x02),
        );
        assert(c.raw_fspec()[1] == 0);
    }
}

/// Octet 2 of a presence map whose bits agree with item presence
/// holds exactly the derived item bits, or lies beyond the map's end
/// and then no item of the octet is present.
#[verifier::rlimit(100)]
#[verifier::spinoff_prover]
proof fn lemma_octet_match_2(c: Cat48)
    requires
        c.presence_matches(),
        c.fspec_wire_shape(),
    ensures
        2 < c.fspec@.len() ==> c.raw_fspec()[2] == (c.fspec@[2] & 0xfe),
        c.fspec@.len() <= 2 ==> c.raw_fspec()[2] == 0,
{
    let f = c.fspec@;
    if 2 < f.len() {
        assert(fspec_bit(f, 15) <==> c.item_present(15));
        assert(c.item_present(15) <==> c.track_quality is Some);
        assert(fspec_bit(f, 16) <==> c.item_present(16));
        assert(c.item_present(16) <==> c.warning_error_con_target_class is Some);
        assert(fspec_bit(f, 17) <==> c.item_present(17));
        assert(c.item_present(17) <==> c.mode3a_code_confidence_indicator is Some);
        assert(fspec_bit(f, 18) <==> c.item_present(18));
        assert(c.item_present(18) <==> c.modec_code_and_confidence_indicator is Some);
        assert(fspec_bit(f, 19) <==> c.item_present(19));
        assert(c.item_present(19) <==> c.height_measured_by_3d_radar is Some);
        assert(fspec_bit(f, 20) <==> c.item_present(20));
        assert(c.item_present(20) <==> c.radial_doppler_speed is Some);
        assert(fspec_bit(f, 21) <==> c.item_present(21));
        assert(c.item_present(21) <==> c.communications_capability_flight_status is Some);
        lemma_octet_reconstruct(
            pbit(c.track_quality, 0x80),
            pbit(c.warning_error_con_target_class, 0x40),
            pbit(c.mode3a_code_confidence_indicator, 0x20),
            pbit(c.modec_code_and_confidence_indicator, 0x10),
            pbit(c.height_measured_by_3d_radar, 0x08),
            pbit(c.radial_doppler_speed, 0x04),
            pbit(c.communications_capability_flight_status, 0x02),
            f[2],
        );
        assert(c.raw_fspec()[2] == (f[2] & 0xfe));
    } else {
        assert(fspec_bit(f, 15) <==> c.item_present(15));
        assert(!fspec_bit(f, 15));
        assert(fspec_bit(f, 16) <==> c.item_present(16));
        assert(!fspec_bit(f, 16));
        assert(fspec_bit(f, 17) <==> c.item_present(17));
        assert(!fspec_bit(f, 17));
        assert(fspec_bit(f, 18) <==> c.item_present(18));
        assert(!fspec_bit(f, 18));
        assert(fspec_bit(f, 19) <==> c.item_present(19));
        assert(!fspec_bit(f, 19));
        assert(fspec_bit(f, 20) <==> c.item_present(20));
        assert(!fspec_bit(f, 20));
        assert(fspec_bit(f, 21) <==> c.item_present(21));
        assert(!fspec_bit(f, 21));
        lemma_octet_bits(
            pbit(c.track_quality, 0x80),
            pbit(c.warning_error_con_target_class, 0x40),
            pbit(c.mode3a_code_confidence_indicator, 0x20),
            pbit(c.modec_code_and_confidence_indicator, 0x10),
            pbit(c.height_measured_by_3d_radar, 0x08),
            pbit(c.radial_doppler_speed, 0x04),
            pbit(c.communications_capability_flight_status, 0x02),
        );
        assert(c.raw_fspec()[2] == 0);
    }
}

/// Octet 3 of a presence map whose bits agree with item presence
/// holds exactly the derived item bits, or lies beyond the map's end
/// and then no item of the octet is present.
#[verifier::rlimit(100)]
#[verifier::spinoff_prover]
proof fn lemma_octet_match_3(c: Cat48)
    requires
        c.presence_matches(),
        c.fspec_wire_shape(),
    ensures
        3 < c.fspec@.len() ==> c.raw_fspec()[3] == (c.fspec@[3] & 0xfe),
        c.fspec@.len() <= 3 ==> c.raw_fspec()[3] == 0,
{
    let f = c.fspec@;
    if 3 < f.len() {
        assert(fspec_bit(f, 22) <==> c.item_present(22));
        assert(c.item_present(22) <==> c.acas_resolution_advisory_report is Some);
        assert(fspec_bit(f, 23) <==> c.item_present(23));
        assert(c.item_present(23) <==> c.mode_1_code_octal_representation is Some);
        assert(fspec_bit(f, 24) <==> c.item_present(24));
        assert(c.item_present(24) <==> c.mode_2_code_octal_representation is Some);
        assert(fspec_bit(f, 25) <==> c.item_present(25));
        assert(c.item_present(25) <==> c.mode_1_code_confidence is Some);
        assert(fspec_bit(f, 26) <==> c.item_present(26));
        assert(c.item_present(26) <==> c.mode_2_code_confidence is Some);
        lemma_fx_strip(f[3]);
        lemma_octet_reconstruct(
            pbit(c.acas_resolution_advisory_report, 0x80),
            pbit(c.mode_1_code_octal_representation, 0x40),
            pbit(c.mode_2_code_octal_representation, 0x20),
            pbit(c.mode_1_code_confidence, 0x10),
            pbit(c.mode_2_code_confidence, 0x08),
            0,
            0,
            f[3],
        );
        assert(c.raw_fspec()[3] == (f[3] & 0xfe));
    } else {
        assert(fspec_bit(f, 22) <==> c.item_present(22));
        assert(!fspec_bit(f, 22));
        assert(fspec_bit(f, 23) <==> c.item_present(23));
        assert(!fspec_bit(f, 23));
        assert(fspec_bit(f, 24) <==> c.item_present(24));
        assert(!fspec_bit(f, 24));
        assert(fspec_bit(f, 25) <==> c.item_present(25));
        assert(!fspec_bit(f, 25));
        assert(fspec_bit(f, 26) <==> c.item_present(26));
        assert(!fspec_bit(f, 26));
        lemma_octet_bits(
            pbit(c.acas_resolution_advisory_report, 0x80),
            pbit(c.mode_1_code_octal_representation, 0x40),
            pbit(c.mode_2_code_octal_representation, 0x20),
            pbit(c.mode_1_code_confidence, 0x10),
            pbit(c.mode_2_code_confidence, 0x08),
            0,
            0,
        );
        assert(c.raw_fspec()[3] == 0);
    }
}

/// A stored presence map in minimal wire form whose bits agree with item
/// presence is exactly the derived one: such a record is already
/// finalized, so re-deriving its presence map cannot change it.
#[verifier::rlimit(100)]
#[verifier::spinoff_prover]
pub proof fn lemma_minimal_fspec_finalized(c: Cat48)
    requires
        c.presence_matches(),
        c.fspec_wire_shape(),
        fspec_minimal(c.fspec@),
    ensures
        c.finalized(),
{
    let f = c.fspec@;
    let raw = c.raw_fspec();
    let n = f.len() as int;
    lemma_fx_strip(f[n - 1]);
    if n > 4 {
        assert(f[n - 1] & 0xfe == 0);
        assert(false);
    }
    lemma_octet_match_0(c);
    lemma_octet_match_1(c);
    lemma_octet_match_2(c);
    lemma_octet_match_3(c);
    lemma_trim_zeros(raw);
    let t = trim_zeros(raw);
    assert(raw[n - 1] == f[n - 1]);
    assert(raw[n - 1] != 0);
    if t.len() > n {
        assert(raw[t.len() - 1] == 0);
        assert(t.last() == raw[t.len() - 1]);
        assert(false);
    }
    if t.len() < n {
        assert(raw[n - 1] == 0);
        assert(false);
    }
    assert forall|i: int| 0 <= i < n implies with_fx(t)[i] == f[i] by {
        lemma_fx_strip(f[i]);
        assert(t[i] == raw[i]);
    }
    assert(f =~= with_fx(t));
}

impl Cat48 {
    /// Every present Data Item is well formed.
    pub open spec fn wf(self) -> bool {
        &&& opt_wf(self.data_source_identifier)
        &&& opt_wf(self.time_of_day)
        &&& opt_wf(self.target_report_descriptor)
        &&& opt_wf(self.measured_position_in_polar_coordinates)
        &&& opt_wf(self.mode_3_a_code_in_octal_representation)
        &&& opt_wf(self.flight_level_in_binary_repre)
        &&& opt_wf(self.radar_plot_characteristics)
        &&& opt_wf(self.aircraft_address)
        &&& opt_wf(self.aircraft_identification)
        &&& opt_wf(self.mode_smb_data)
        &&& opt_wf(self.track_number)
        &&& opt_wf(self.calculated_position_cartesian_coor)
        &&& opt_wf(self.calculated_track_velocity)
        &&& opt_wf(self.track_status)
        &&& opt_wf(self.track_quality)
        &&& opt_wf(self.warning_error_con_target_class)
        &&& opt_wf(self.mode3a_code_confidence_indicator)
        &&& opt_wf(self.modec_code_and_confidence_indicator)
        &&& opt_wf(self.height_measured_by_3d_radar)
        &&& opt_wf(self.radial_doppler_speed)
        &&& opt_wf(self.communications_capability_flight_status)
        &&& opt_wf(self.acas_resolution_advisory_report)
        &&& opt_wf(self.mode_1_code_octal_representation)
        &&& opt_wf(self.mode_2_code_octal_representation)
        &&& opt_wf(self.mode_1_code_confidence)
        &&& opt_wf(self.mode_2_code_confidence)
    }

    /// The octets of this record on the wire: the stored presence map
    /// followed by the present Data Items in FRN order, grouped here
    /// by presence-map octet.
    pub open spec fn enc(self) -> Seq<u8> {
        self.fspec@ + (opt_enc(self.data_source_identifier) + opt_enc(self.time_of_day) + opt_enc(self.target_report_descriptor) + opt_enc(self.measured_position_in_polar_coordinates) + opt_enc(self.mode_3_a_code_in_octal_representation) + opt_enc(self.flight_level_in_binary_repre) + opt_enc(self.radar_plot_characteristics)) + (opt_enc(self.aircraft_address) + opt_enc(self.aircraft_identification) + opt_enc(self.mode_smb_data) + opt_enc(self.track_number) + opt_enc(self.calculated_position_cartesian_coor) + opt_enc(self.calculated_track_velocity) + opt_enc(self.track_status)) + (opt_enc(self.track_quality) + opt_enc(self.warning_error_con_target_class) + opt_enc(self.mode3a_code_confidence_indicator) + opt_enc(self.modec_code_and_confidence_indicator) + opt_enc(self.height_measured_by_3d_radar) + opt_enc(self.radial_doppler_speed) + opt_enc(self.communications_capability_flight_status)) + (opt_enc(self.acas_resolution_advisory_report) + opt_enc(self.mode_1_code_octal_representation) + opt_enc(self.mode_2_code_octal_representation) + opt_enc(self.mode_1_code_confidence) + opt_enc(self.mode_2_code_confidence))
    }

    /// Draft presence map derived from item presence: one bit per
    /// present item, FX bits clear, untrimmed.
    pub open spec fn raw_fspec(self) -> Seq<u8> {
        seq![
            pbit(self.data_source_identifier, 0x80) | pbit(self.time_of_day, 0x40) | pbit(self.target_report_descriptor, 0x20) | pbit(self.measured_position_in_polar_coordinates, 0x10) | pbit(self.mode_3_a_code_in_octal_representation, 0x08) | pbit(self.flight_level_in_binary_repre, 0x04) | pbit(self.radar_plot_characteristics, 0x02),
            pbit(self.aircraft_address, 0x80) | pbit(self.aircraft_identification, 0x40) | pbit(self.mode_smb_data, 0x20) | pbit(self.track_number, 0x10) | pbit(self.calculated_position_cartesian_coor, 0x08) | pbit(self.calculated_track_velocity, 0x04) | pbit(self.track_status, 0x02),
            pbit(self.track_quality, 0x80) | pbit(self.warning_error_con_target_class, 0x40) | pbit(self.mode3a_code_confidence_indicator, 0x20) | pbit(self.modec_code_and_confidence_indicator, 0x10) | pbit(self.height_measured_by_3d_radar, 0x08) | pbit(self.radial_doppler_speed, 0x04) | pbit(self.communications_capability_flight_status, 0x02),
            pbit(self.acas_resolution_advisory_report, 0x80) | pbit(self.mode_1_code_octal_representation, 0x40) | pbit(self.mode_2_code_octal_representation, 0x20) | pbit(self.mode_1_code_confidence, 0x10) | pbit(self.mode_2_code_confidence, 0x08) | 0 | 0,
        ]
    }

    /// The minimal wire presence map for this record's items.
    pub open spec fn derived_fspec(self) -> Seq<u8> {
        finalized_fspec(self.raw_fspec())
    }

    /// The stored presence map is exactly the one `update_fspec`
    /// derives, so re-finalizing changes nothing.
    pub open spec fn finalized(self) -> bool {
        self.fspec@ == self.derived_fspec()
    }

    /// Whether the Data Item at FRN `k` is present.
    pub open spec fn item_present(self, k: int) -> bool {
        if k == 1 {
            self.data_source_identifier is Some
        } else if k == 2 {
            self.time_of_day is Some
        } else if k == 3 {
            self.target_report_descriptor is Some
        } else if k == 4 {
            self.measured_position_in_polar_coordinates is Some
        } else if k == 5 {
            self.mode_3_a_code_in_octal_representation is Some
        } else if k == 6 {
            self.flight_level_in_binary_repre is Some
        } else if k == 7 {
            self.radar_plot_characteristics is Some
        } else if k == 8 {
            self.aircraft_address is Some
        } else if k == 9 {
            self.aircraft_identification is Some
        } else if k == 10 {
            self.mode_smb_data is Some
        } else if k == 11 {
            self.track_number is Some
        } else if k == 12 {
            self.calculated_position_cartesian_coor is Some
        } else if k == 13 {
            self.calculated_track_velocity is Some
        } else if k == 14 {
            self.track_status is Some
        } else if k == 15 {
            self.track_quality is Some
        } else if k == 16 {
            self.warning_error_con_target_class is Some
        } else if k == 17 {
            self.mode3a_code_confidence_indicator is Some
        } else if k == 18 {
            self.modec_code_and_confidence_indicator is Some
        } else if k == 19 {
            self.height_measured_by_3d_radar is Some
        } else if k == 20 {
            self.radial_doppler_speed is Some
        } else if k == 21 {
            self.communications_capability_flight_status is Some
        } else if k == 22 {
            self.acas_resolution_advisory_report is Some
        } else if k == 23 {
            self.mode_1_code_octal_representation is Some
        } else if k == 24 {
            self.mode_2_code_octal_representation is Some
        } else if k == 25 {
            self.mode_1_code_confidence is Some
        } else if k == 26 {
            self.mode_2_code_confidence is Some
        } else {
            false
        }
    }

    /// Each Data Item is present exactly when the stored presence map
    /// asserts its FRN.
    pub open spec fn presence_matches(self) -> bool {
        forall|k: int|
            1 <= k <= 26 ==> (fspec_bit(self.fspec@, k) <==> self.item_present(k))
    }

    /// Bits the catalog leaves unassigned are clear: nothing beyond the
    /// last defined FRN is asserted.
    pub open spec fn frn_range_ok(f: Seq<u8>) -> bool {
        &&& (f.len() >= 4 ==> f[3] & 0x06u8 == 0)
        &&& (forall|j: int| 4 <= j < f.len() ==> #[trigger] f[j] & 0xfe == 0)
    }

    /// The shape every decoded presence map has: at least one octet, FX
    /// set on every octet but the last, FX clear on the last, and no bit
    /// beyond the catalog's FRN range.
    pub open spec fn fspec_wire_shape(self) -> bool {
        &&& self.fspec@.len() >= 1
        &&& (forall|i: int|
            0 <= i < self.fspec@.len() - 1 ==> #[trigger] self.fspec@[i] & 1 == 1)
        &&& self.fspec@.last() & 1 == 0
        &&& Self::frn_range_ok(self.fspec@)
    }

    /// Bytes consumed by the items of FRN 7 through 7 when decoded
    /// at `p` against presence map `f`, or negative when one of them
    /// cannot be decoded.
    pub open spec fn len_from_frn_7(b: Seq<u8>, p: int, end: int, f: Seq<u8>) -> int {
        if bit_set(f, 0, 0x02) {
            RadarPlotCharacteristics::spec_len(b, p, end)
        } else {
            0
        }
    }

    /// Bytes consumed by the items of FRN 6 through 7 when decoded
    /// at `p` against presence map `f`, or negative when one of them
    /// cannot be decoded.
    pub open spec fn len_from_frn_6(b: Seq<u8>, p: int, end: int, f: Seq<u8>) -> int {
        let l = if bit_set(f, 0, 0x04) {
            FlightLevelInBinaryRepresentation::spec_len(b, p, end)
        } else {
            0
        };
        if l < 0 {
            -1
        } else {
            let rest = Self::len_from_frn_7(b, p + l, end, f);
            if rest < 0 {
                -1
            } else {
                l + rest
            }
        }
    }

    /// Bytes consumed by the items of FRN 5 through 7 when decoded
    /// at `p` against presence map `f`, or negative when one of them
    /// cannot be decoded.
    pub open spec fn len_from_frn_5(b: Seq<u8>, p: int, end: int, f: Seq<u8>) -> int {
        let l = if bit_set(f, 0, 0x08) {
            Mode3ACodeInOctalRepresentation::spec_len(b, p, end)
        } else {
            0
        };
        if l < 0 {
            -1
        } else {
            let rest = Self::len_from_frn_6(b, p + l, end, f);
            if rest < 0 {
                -1
            } else {
                l + rest
            }
        }
    }

    /// Bytes consumed by the items of FRN 4 through 7 when decoded
    /// at `p` against presence map `f`, or negative when one of them
    /// cannot be decoded.
    pub open spec fn len_from_frn_4(b: Seq<u8>, p: int, end: int, f: Seq<u8>) -> int {
        let l = if bit_set(f, 0, 0x10) {
            MeasuredPositionInPolarCoordinates::spec_len(b, p, end)
        } else {
            0
        };
        if l < 0 {
            -1
        } else {
            let rest = Self::len_from_frn_5(b, p + l, end, f);
            if rest < 0 {
                -1
            } else {
                l + rest
            }
        }
    }

    /// Bytes consumed by the items of FRN 3 through 7 when decoded
    /// at `p` against presence map `f`, or negative when one of them
    /// cannot be decoded.
    pub open spec fn len_from_frn_3(b: Seq<u8>, p: int, end: int, f: Seq<u8>) -> int {
        let l = if bit_set(f, 0, 0x20) {
            TargetReportDescriptor::spec_len(b, p, end)
        } else {
            0
        };
        if l < 0 {
            -1
        } else {
            let rest = Self::len_from_frn_4(b, p + l, end, f);
            if rest < 0 {
                -1
            } else {
                l + rest
            }
        }
    }

    /// Bytes consumed by the items of FRN 2 through 7 when decoded
    /// at `p` against presence map `f`, or negative when one of them
    /// cannot be decoded.
    pub open spec fn len_from_frn_2(b: Seq<u8>, p: int, end: int, f: Seq<u8>) -> int {
        let l = if bit_set(f, 0, 0x40) {
            TimeOfDay::spec_len(b, p, end)
        } else {
            0
        };
        if l < 0 {
            -1
        } else {
            let rest = Self::len_from_frn_3(b, p + l, end, f);
            if rest < 0 {
                -1
            } else {
                l + rest
            }
        }
    }

    /// Bytes consumed by the items of FRN 1 through 7 when decoded
    /// at `p` against presence map `f`, or negative when one of them
    /// cannot be decoded.
    pub open spec fn len_from_frn_1(b: Seq<u8>, p: int, end: int, f: Seq<u8>) -> int {
        let l = if bit_set(f, 0, 0x80) {
            DataSourceIdentifier::spec_len(b, p, end)
        } else {
            0
        };
        if l < 0 {
            -1
        } else {
            let rest = Self::len_from_frn_2(b, p + l, end, f);
            if rest < 0 {
                -1
            } else {
                l + rest
            }
        }
    }

    /// Bytes consumed by the items of FRN 14 through 14 when decoded
    /// at `p` against presence map `f`, or negative when one of them
    /// cannot be decoded.
    pub open spec fn len_from_frn_14(b: Seq<u8>, p: int, end: int, f: Seq<u8>) -> int {
        if bit_set(f, 1, 0x02) {
            TrackStatus::spec_len(b, p, end)
        } else {
            0
        }
    }

    /// Bytes consumed by the items of FRN 13 through 14 when decoded
    /// at `p` against presence map `f`, or negative when one of them
    /// cannot be decoded.
    pub open spec fn len_from_frn_13(b: Seq<u8>, p: int, end: int, f: Seq<u8>) -> int {
        let l = if bit_set(f, 1, 0x04) {
            CalculatedTrackVelocity::spec_len(b, p, end)
        } else {
            0
        };
        if l < 0 {
            -1
        } else {
            let rest = Self::len_from_frn_14(b, p + l, end, f);
            if rest < 0 {
                -1
            } else {
                l + rest
            }
        }
    }

    /// Bytes consumed by the items of FRN 12 through 14 when decoded
    /// at `p` against presence map `f`, or negative when one of them
    /// cannot be decoded.
    pub open spec fn len_from_frn_12(b: Seq<u8>, p: int, end: int, f: Seq<u8>) -> int {
        let l = if bit_set(f, 1, 0x08) {
            CalculatedPositionCartesianCorr::spec_len(b, p, end)
        } else {
            0
        };
        if l < 0 {
            -1
        } else {
            let rest = Self::len_from_frn_13(b, p + l, end, f);
            if rest < 0 {
                -1
            } else {
                l + rest
            }
        }
    }

    /// Bytes consumed by the items of FRN 11 through 14 when decoded
    /// at `p` against presence map `f`, or negative when one of them
    /// cannot be decoded.
    pub open spec fn len_from_frn_11(b: Seq<u8>, p: int, end: int, f: Seq<u8>) -> int {
        let l = if bit_set(f, 1, 0x10) {
            TrackNumber::spec_len(b, p, end)
        } else {
            0
        };
        if l < 0 {
            -1
        } else {
            let rest = Self::len_from_frn_12(b, p + l, end, f);
            if rest < 0 {
                -1
            } else {
                l + rest
            }
        }
    }

    /// Bytes consumed by the items of FRN 10 through 14 when decoded
    /// at `p` against presence map `f`, or negative when one of them
    /// cannot be decoded.
    pub open spec fn len_from_frn_10(b: Seq<u8>, p: int, end: int, f: Seq<u8>) -> int {
        let l = if bit_set(f, 1, 0x20) {
            ModeSMBData::spec_len(b, p, end)
        } else {
            0
        };
        if l < 0 {
            -1
        } else {
            let rest = Self::len_from_frn_11(b, p + l, end, f);
            if rest < 0 {
                -1
            } else {
                l + rest
            }
        }
    }

    /// Bytes consumed by the items of FRN 9 through 14 when decoded
    /// at `p` against presence map `f`, or negative when one of them
    /// cannot be decoded.
    pub open spec fn len_from_frn_9(b: Seq<u8>, p: int, end: int, f: Seq<u8>) -> int {
        let l = if bit_set(f, 1, 0x40) {
            AircraftIdentification::spec_len(b, p, end)
        } else {
            0
        };
        if l < 0 {
            -1
        } else {
            let rest = Self::len_from_frn_10(b, p + l, end, f);
            if rest < 0 {
                -1
            } else {
                l + rest
            }
        }
    }

    /// Bytes consumed by the items of FRN 8 through 14 when decoded
    /// at `p` against presence map `f`, or negative when one of them
    /// cannot be decoded.
    pub open spec fn len_from_frn_8(b: Seq<u8>, p: int, end: int, f: Seq<u8>) -> int {
        let l = if bit_set(f, 1, 0x80) {
            AircraftAddress::spec_len(b, p, end)
        } else {
            0
        };
        if l < 0 {
            -1
        } else {
            let rest = Self::len_from_frn_9(b, p + l, end, f);
            if rest < 0 {
                -1
            } else {
                l + rest
            }
        }
    }

    /// Bytes consumed by the items of FRN 21 through 21 when decoded
    /// at `p` against presence map `f`, or negative when one of them
    /// cannot be decoded.
    pub open spec fn len_from_frn_21(b: Seq<u8>, p: int, end: int, f: Seq<u8>) -> int {
        if bit_set(f, 2, 0x02) {
            CommunicationsCapabilityFlightStatus::spec_len(b, p, end)
        } else {
            0
        }
    }

    /// Bytes consumed by the items of FRN 20 through 21 when decoded
    /// at `p` against presence map `f`, or negative when one of them
    /// cannot be decoded.
    pub open spec fn len_from_frn_20(b: Seq<u8>, p: int, end: int, f: Seq<u8>) -> int {
        let l = if bit_set(f, 2, 0x04) {
            RadialDopplerSpeed::spec_len(b, p, end)
        } else {
            0
        };
        if l < 0 {
            -1
        } else {
            let rest = Self::len_from_frn_21(b, p + l, end, f);
            if rest < 0 {
                -1
            } else {
                l + rest
            }
        }
    }

    /// Bytes consumed by the items of FRN 19 through 21 when decoded
    /// at `p` against presence map `f`, or negative when one of them
    /// cannot be decoded.
    pub open spec fn len_from_frn_19(b: Seq<u8>, p: int, end: int, f: Seq<u8>) -> int {
        let l = if bit_set(f, 2, 0x08) {
            HeightMeasuredBy3dRadar::spec_len(b, p, end)
        } else {
            0
        };
        if l < 0 {
            -1
        } else {
            let rest = Self::len_from_frn_20(b, p + l, end, f);
            if rest < 0 {
                -1
            } else {
                l + rest
            }
        }
    }

    /// Bytes consumed by the items of FRN 18 through 21 when decoded
    /// at `p` against presence map `f`, or negative when one of them
    /// cannot be decoded.
    pub open spec fn len_from_frn_18(b: Seq<u8>, p: int, end: int, f: Seq<u8>) -> int {
        let l = if bit_set(f, 2, 0x10) {
            ModeCCodeAndConfidenceIndicator::spec_len(b, p, end)
        } else {
            0
        };
        if l < 0 {
            -1
        } else {
            let rest = Self::len_from_frn_19(b, p + l, end, f);
            if rest < 0 {
                -1
            } else {
                l + rest
            }
        }
    }

    /// Bytes consumed by the items of FRN 17 through 21 when decoded
    /// at `p` against presence map `f`, or negative when one of them
    /// cannot be decoded.
    pub open spec fn len_from_frn_17(b: Seq<u8>, p: int, end: int, f: Seq<u8>) -> int {
        let l = if bit_set(f, 2, 0x20) {
            Mode3ACodeConfidenceIndicator::spec_len(b, p, end)
        } else {
            0
        };
        if l < 0 {
            -1
        } else {
            let rest = Self::len_from_frn_18(b, p + l, end, f);
            if rest < 0 {
                -1
            } else {
                l + rest
            }
        }
    }

    /// Bytes consumed by the items of FRN 16 through 21 when decoded
    /// at `p` against presence map `f`, or negative when one of them
    /// cannot be decoded.
    pub open spec fn len_from_frn_16(b: Seq<u8>, p: int, end: int, f: Seq<u8>) -> int {
        let l = if bit_set(f, 2, 0x40) {
            WarningErrorConditionsTargetClass::spec_len(b, p, end)
        } else {
            0
        };
        if l < 0 {
            -1
        } else {
            let rest = Self::len_from_frn_17(b, p + l, end, f);
            if rest < 0 {
                -1
            } else {
                l + rest
            }
        }
    }

    /// Bytes consumed by the items of FRN 15 through 21 when decoded
    /// at `p` against presence map `f`, or negative when one of them
    /// cannot be decoded.
    pub open spec fn len_from_frn_15(b: Seq<u8>, p: int, end: int, f: Seq<u8>) -> int {
        let l = if bit_set(f, 2, 0x80) {
            TrackQuality::spec_len(b, p, end)
        } else {
            0
        };
        if l < 0 {
            -1
        } else {
            let rest = Self::len_from_frn_16(b, p + l, end, f);
            if rest < 0 {
                -1
            } else {
                l + rest
            }
        }
    }

    /// Bytes consumed by the items of FRN 26 through 26 when decoded
    /// at `p` against presence map `f`, or negative when one of them
    /// cannot be decoded.
    pub open spec fn len_from_frn_26(b: Seq<u8>, p: int, end: int, f: Seq<u8>) -> int {
        if bit_set(f, 3, 0x08) {
            Mode2CodeConfidenceIndicator::spec_len(b, p, end)
        } else {
            0
        }
    }

    /// Bytes consumed by the items of FRN 25 through 26 when decoded
    /// at `p` against presence map `f`, or negative when one of them
    /// cannot be decoded.
    pub open spec fn len_from_frn_25(b: Seq<u8>, p: int, end: int, f: Seq<u8>) -> int {
        let l = if bit_set(f, 3, 0x10) {
            Mode1CodeConfidenceIndicator::spec_len(b, p, end)
        } else {
            0
        };
        if l < 0 {
            -1
        } else {
            let rest = Self::len_from_frn_26(b, p + l, end, f);
            if rest < 0 {
                -1
            } else {
                l + rest
            }
        }
    }

    /// Bytes consumed by the items of FRN 24 through 26 when decoded
    /// at `p` against presence map `f`, or negative when one of them
    /// cannot be decoded.
    pub open spec fn len_from_frn_24(b: Seq<u8>, p: int, end: int, f: Seq<u8>) -> int {
        let l = if bit_set(f, 3, 0x20) {
            Mode2CodeOctalRepresentation::spec_len(b, p, end)
        } else {
            0
        };
        if l < 0 {
            -1
        } else {
            let rest = Self::len_from_frn_25(b, p + l, end, f);
            if rest < 0 {
                -1
            } else {
                l + rest
            }
        }
    }

    /// Bytes consumed by the items of FRN 23 through 26 when decoded
    /// at `p` against presence map `f`, or negative when one of them
    /// cannot be decoded.
    pub open spec fn len_from_frn_23(b: Seq<u8>, p: int, end: int, f: Seq<u8>) -> int {
        let l = if bit_set(f, 3, 0x40) {
            Mode1CodeOctalRepresentation::spec_len(b, p, end)
        } else {
            0
        };
        if l < 0 {
            -1
        } else {
            let rest = Self::len_from_frn_24(b, p + l, end, f);
            if rest < 0 {
                -1
            } else {
                l + rest
            }
        }
    }

    /// Bytes consumed by the items of FRN 22 through 26 when decoded
    /// at `p` against presence map `f`, or negative when one of them
    /// cannot be decoded.
    pub open spec fn len_from_frn_22(b: Seq<u8>, p: int, end: int, f: Seq<u8>) -> int {
        let l = if bit_set(f, 3, 0x80) {
            ACASResolutionAdvisoryReport::spec_len(b, p, end)
        } else {
            0
        };
        if l < 0 {
            -1
        } else {
            let rest = Self::len_from_frn_23(b, p + l, end, f);
            if rest < 0 {
                -1
            } else {
                l + rest
            }
        }
    }

    /// Bytes one record occupies when decoded at `pos`, or a negative
    /// length when it cannot be decoded there: the presence-map chain
    /// must terminate, assert no FRN beyond the catalog, and every
    /// asserted item must decode in turn.
    pub open spec fn spec_len(b: Seq<u8>, pos: int, end: int) -> int {
        if !chain_ok(b, pos, end) {
            -1
        } else {
            let fend = chain_end(b, pos, end) + 1;
            let f = b.subrange(pos, fend);
            if !Self::frn_range_ok(f) {
                -1
            } else {
                let l0 = Self::len_from_frn_1(b, fend, end, f);
                if l0 < 0 {
                    -1
                } else {
                    let l1 = Self::len_from_frn_8(b, fend + l0, end, f);
                    if l1 < 0 {
                        -1
                    } else {
                        let l2 = Self::len_from_frn_15(b, fend + l0 + l1, end, f);
                        if l2 < 0 {
                            -1
                        } else {
                            let l3 = Self::len_from_frn_22(b, fend + l0 + l1 + l2, end, f);
                            if l3 < 0 {
                                -1
                            } else {
                                (fend - pos) + l0 + l1 + l2 + l3
                            }
                        }
                    }
                }
            }
        }
    }

    /// The records hold the same Data Items; only the stored presence
    /// map may differ.
    pub open spec fn same_items(self, other: Self) -> bool {
        &&& self.data_source_identifier == other.data_source_identifier
        &&& self.time_of_day == other.time_of_day
        &&& self.target_report_descriptor == other.target_report_descriptor
        &&& self.measured_position_in_polar_coordinates == other.measured_position_in_polar_coordinates
        &&& self.mode_3_a_code_in_octal_representation == other.mode_3_a_code_in_octal_representation
        &&& self.flight_level_in_binary_repre == other.flight_level_in_binary_repre
        &&& self.radar_plot_characteristics == other.radar_plot_characteristics
        &&& self.aircraft_address == other.aircraft_address
        &&& self.aircraft_identification == other.aircraft_identification
        &&& self.mode_smb_data == other.mode_smb_data
        &&& self.track_number == other.track_number
        &&& self.calculated_position_cartesian_coor == other.calculated_position_cartesian_coor
        &&& self.calculated_track_velocity == other.calculated_track_velocity
        &&& self.track_status == other.track_status
        &&& self.track_quality == other.track_quality
        &&& self.warning_error_con_target_class == other.warning_error_con_target_class
        &&& self.mode3a_code_confidence_indicator == other.mode3a_code_confidence_indicator
        &&& self.modec_code_and_confidence_indicator == other.modec_code_and_confidence_indicator
        &&& self.height_measured_by_3d_radar == other.height_measured_by_3d_radar
        &&& self.radial_doppler_speed == other.radial_doppler_speed
        &&& self.communications_capability_flight_status == other.communications_capability_flight_status
        &&& self.acas_resolution_advisory_report == other.acas_resolution_advisory_report
        &&& self.mode_1_code_octal_representation == other.mode_1_code_octal_representation
        &&& self.mode_2_code_octal_representation == other.mode_2_code_octal_representation
        &&& self.mode_1_code_confidence == other.mode_1_code_confidence
        &&& self.mode_2_code_confidence == other.mode_2_code_confidence
    }

    /// Rebuilds the presence map from item presence: one bit per
    /// present item, trailing zero octets trimmed, FX set on every
    /// octet but the last. The result asserts an FRN exactly when its
    /// Data Item is present, and is minimal.
    #[verifier::rlimit(100)]
    #[verifier::spinoff_prover]
    pub fn update_fspec(&mut self)
        ensures
            final(self).same_items(*old(self)),
            final(self).fspec@ == old(self).derived_fspec(),
            final(self).finalized(),
            fspec_minimal(final(self).fspec@),
            forall|k: int|
                1 <= k <= 26 ==> (fspec_bit(final(self).fspec@, k) <==> old(
                self).item_present(k)),
    {
        let f = self.derive_fspec_vec();
        self.fspec = f;
        proof {
            assert(self.raw_fspec() == old(self).raw_fspec());
        }
    }

    /// Octet 0 of the draft presence map derived from item presence.
    fn raw_octet_0(&self) -> (o: u8)
        ensures
            o == self.raw_fspec()[0],
    {
        (if self.data_source_identifier.is_some() {
            0x80u8
        } else {
            0u8
        }) | (if self.time_of_day.is_some() {
            0x40u8
        } else {
            0u8
        }) | (if self.target_report_descriptor.is_some() {
            0x20u8
        } else {
            0u8
        }) | (if self.measured_position_in_polar_coordinates.is_some() {
            0x10u8
        } else {
            0u8
        }) | (if self.mode_3_a_code_in_octal_representation.is_some() {
            0x08u8
        } else {
            0u8
        }) | (if self.flight_level_in_binary_repre.is_some() {
            0x04u8
        } else {
            0u8
        }) | (if self.radar_plot_characteristics.is_some() {
            0x02u8
        } else {
            0u8
        })
    }

    /// Octet 1 of the draft presence map derived from item presence.
    fn raw_octet_1(&self) -> (o: u8)
        ensures
            o == self.raw_fspec()[1],
    {
        (if self.aircraft_address.is_some() {
            0x80u8
        } else {
            0u8
        }) | (if self.aircraft_identification.is_some() {
            0x40u8
        } else {
            0u8
        }) | (if self.mode_smb_data.is_some() {
            0x20u8
        } else {
            0u8
        }) | (if self.track_number.is_some() {
            0x10u8
        } else {
            0u8
        }) | (if self.calculated_position_cartesian_coor.is_some() {
            0x08u8
        } else {
            0u8
        }) | (if self.calculated_track_velocity.is_some() {
            0x04u8
        } else {
            0u8
        }) | (if self.track_status.is_some() {
            0x02u8
        } else {
            0u8
        })
    }

    /// Octet 2 of the draft presence map derived from item presence.
    fn raw_octet_2(&self) -> (o: u8)
        ensures
            o == self.raw_fspec()[2],
    {
        (if self.track_quality.is_some() {
            0x80u8
        } else {
            0u8
        }) | (if self.warning_error_con_target_class.is_some() {
            0x40u8
        } else {
            0u8
        }) | (if self.mode3a_code_confidence_indicator.is_some() {
            0x20u8
        } else {
            0u8
        }) | (if self.modec_code_and_confidence_indicator.is_some() {
            0x10u8
        } else {
            0u8
        }) | (if self.height_measured_by_3d_radar.is_some() {
            0x08u8
        } else {
            0u8
        }) | (if self.radial_doppler_speed.is_some() {
            0x04u8
        } else {
            0u8
        }) | (if self.communications_capability_flight_status.is_some() {
            0x02u8
        } else {
            0u8
        })
    }

    /// Octet 3 of the draft presence map derived from item presence.
    fn raw_octet_3(&self) -> (o: u8)
        ensures
            o == self.raw_fspec()[3],
    {
        (if self.acas_resolution_advisory_report.is_some() {
            0x80u8
        } else {
            0u8
        }) | (if self.mode_1_code_octal_representation.is_some() {
            0x40u8
        } else {
            0u8
        }) | (if self.mode_2_code_octal_representation.is_some() {
            0x20u8
        } else {
            0u8
        }) | (if self.mode_1_code_confidence.is_some() {
            0x10u8
        } else {
            0u8
        }) | (if self.mode_2_code_confidence.is_some() {
            0x08u8
        } else {
            0u8
        }) | 0 | 0
    }

    /// Computes the minimal wire presence map for this record's items.
    #[verifier::rlimit(100)]
    #[verifier::spinoff_prover]
    fn derive_fspec_vec(&self) -> (f: Vec<u8>)
        ensures
            f@ == self.derived_fspec(),
            fspec_minimal(f@),
            forall|k: int|
                1 <= k <= 26 ==> (fspec_bit(f@, k) <==> self.item_present(k)),
    {
        let mut f: Vec<u8> = Vec::new();
        f.push(self.raw_octet_0());
        f.push(self.raw_octet_1());
        f.push(self.raw_octet_2());
        f.push(self.raw_octet_3());
        proof {
            assert(f@ =~= self.raw_fspec());
        }
        trim_fspec(&mut f);
        if f.len() > 0 {
            add_fx(&mut f);
        }
        proof {
            if f@.len() == 0 {
                assert(f@ =~= with_fx(f@));
            }
            assert(f@ == self.derived_fspec());
            lemma_derived_props(*self);
        }
        f
    }

    /// Decodes the Data Items of FRN 1 through 4 into `m`,
    /// linking the bytes consumed to the remaining tail of the octet.
    #[verifier::rlimit(100)]
    #[verifier::spinoff_prover]
    fn decode_frn_1_4(b: &[u8], pos: usize, end: usize, fspec: &Vec<u8>, m: &mut Cat48) -> (r:
        Result<usize, AsterixError>)
        requires
            pos <= end <= b@.len(),
        ensures
            r matches Ok(next) ==> {
                &&& pos <= next <= end
                &&& opt_enc(final(m).data_source_identifier) + opt_enc(final(m).time_of_day) + opt_enc(final(m).target_report_descriptor) + opt_enc(final(m).measured_position_in_polar_coordinates) == b@.subrange(
                    pos as int,
                    next as int,
                )
                &&& opt_wf(final(m).data_source_identifier)
                &&& opt_wf(final(m).time_of_day)
                &&& opt_wf(final(m).target_report_descriptor)
                &&& opt_wf(final(m).measured_position_in_polar_coordinates)
                &&& (final(m).data_source_identifier is Some <==> (0 < fspec@.len() && 0x80
                    & fspec@[0] == 0x80))
                &&& (final(m).time_of_day is Some <==> (0 < fspec@.len() && 0x40
                    & fspec@[0] == 0x40))
                &&& (final(m).target_report_descriptor is Some <==> (0 < fspec@.len() && 0x20
                    & fspec@[0] == 0x20))
                &&& (final(m).measured_position_in_polar_coordinates is Some <==> (0 < fspec@.len() && 0x10
                    & fspec@[0] == 0x10))
                &&& ((Self::len_from_frn_1(b@, pos as int, end as int, fspec@) >= 0)
                    <==> (Self::len_from_frn_5(b@, next as int, end as int, fspec@)
                    >= 0))
                &&& (Self::len_from_frn_5(b@, next as int, end as int, fspec@) >= 0
                    ==> pos + Self::len_from_frn_1(b@, pos as int, end as int, fspec@)
                    == next + Self::len_from_frn_5(b@, next as int, end as int, fspec@))
            },
            final(m).fspec == old(m).fspec,
            final(m).mode_3_a_code_in_octal_representation == old(m).mode_3_a_code_in_octal_representation,
            final(m).flight_level_in_binary_repre == old(m).flight_level_in_binary_repre,
            final(m).radar_plot_characteristics == old(m).radar_plot_characteristics,
            final(m).aircraft_address == old(m).aircraft_address,
            final(m).aircraft_identification == old(m).aircraft_identification,
            final(m).mode_smb_data == old(m).mode_smb_data,
            final(m).track_number == old(m).track_number,
            final(m).calculated_position_cartesian_coor == old(m).calculated_position_cartesian_coor,
            final(m).calculated_track_velocity == old(m).calculated_track_velocity,
            final(m).track_status == old(m).track_status,
            final(m).track_quality == old(m).track_quality,
            final(m).warning_error_con_target_class == old(m).warning_error_con_target_class,
            final(m).mode3a_code_confidence_indicator == old(m).mode3a_code_confidence_indicator,
            final(m).modec_code_and_confidence_indicator == old(m).modec_code_and_confidence_indicator,
            final(m).height_measured_by_3d_radar == old(m).height_measured_by_3d_radar,
            final(m).radial_doppler_speed == old(m).radial_doppler_speed,
            final(m).communications_capability_flight_status == old(m).communications_capability_flight_status,
            final(m).acas_resolution_advisory_report == old(m).acas_resolution_advisory_report,
            final(m).mode_1_code_octal_representation == old(m).mode_1_code_octal_representation,
            final(m).mode_2_code_octal_representation == old(m).mode_2_code_octal_representation,
            final(m).mode_1_code_confidence == old(m).mode_1_code_confidence,
            final(m).mode_2_code_confidence == old(m).mode_2_code_confidence,
            r matches Err(e) ==> (e == AsterixError::Underflow || e
                == AsterixError::InvalidDiscriminant) && Self::len_from_frn_1(
                b@,
                pos as int,
                end as int,
                fspec@,
            ) < 0,
    {
        let mut cur = pos;
        let ghost mut acc: Seq<u8> = Seq::empty();
        let ghost q1 = cur as int;
        if !is_fspec(DataSourceIdentifier::FRN_48, fspec.as_slice(), 0) {
            match DataSourceIdentifier::decode(b, cur, end) {
                Ok((t, n)) => {
                    proof {
                        lemma_subrange_join(b@, pos as int, cur as int, n as int);
                    }
                    m.data_source_identifier = Some(t);
                    cur = n;
                },
                Err(e) => {
                    proof {
                        assert(Self::len_from_frn_1(
                            b@,
                            cur as int,
                            end as int,
                            fspec@,
                        ) < 0);
                    }
                    return Err(e);
                },
            }
        } else {
            m.data_source_identifier = None;
        }
        proof {
            if m.data_source_identifier is None {
                lemma_seq_add_empty(acc);
            }
            acc = acc + opt_enc(m.data_source_identifier);
            assert(acc =~= opt_enc(m.data_source_identifier));
            assert(acc == b@.subrange(pos as int, cur as int));
            assert((Self::len_from_frn_1(b@, pos as int, end as int, fspec@)
                >= 0) <==> (Self::len_from_frn_2(
                b@,
                cur as int,
                end as int,
                fspec@,
            ) >= 0));
            assert(Self::len_from_frn_2(b@, cur as int, end as int, fspec@) >= 0
                ==> pos + Self::len_from_frn_1(b@, pos as int, end as int, fspec@)
                == cur + Self::len_from_frn_2(b@, cur as int, end as int, fspec@));
        }
        let ghost q2 = cur as int;
        if !is_fspec(TimeOfDay::FRN_48, fspec.as_slice(), 0) {
            match TimeOfDay::decode(b, cur, end) {
                Ok((t, n)) => {
                    proof {
                        lemma_subrange_join(b@, pos as int, cur as int, n as int);
                    }
                    m.time_of_day = Some(t);
                    cur = n;
                },
                Err(e) => {
                    proof {
                        assert(Self::len_from_frn_2(
                            b@,
                            cur as int,
                            end as int,
                            fspec@,
                        ) < 0);
                    }
                    return Err(e);
                },
            }
        } else {
            m.time_of_day = None;
        }
        proof {
            if m.time_of_day is None {
                lemma_seq_add_empty(acc);
            }
            acc = acc + opt_enc(m.time_of_day);
            assert(acc == b@.subrange(pos as int, cur as int));
            assert((Self::len_from_frn_1(b@, pos as int, end as int, fspec@)
                >= 0) <==> (Self::len_from_frn_3(
                b@,
                cur as int,
                end as int,
                fspec@,
            ) >= 0));
            assert(Self::len_from_frn_3(b@, cur as int, end as int, fspec@) >= 0
                ==> pos + Self::len_from_frn_1(b@, pos as int, end as int, fspec@)
                == cur + Self::len_from_frn_3(b@, cur as int, end as int, fspec@));
        }
        let ghost q3 = cur as int;
        if !is_fspec(TargetReportDescriptor::FRN_48, fspec.as_slice(), 0) {
            match TargetReportDescriptor::decode(b, cur, end) {
                Ok((t, n)) => {
                    proof {
                        lemma_subrange_join(b@, pos as int, cur as int, n as int);
                    }
                    m.target_report_descriptor = Some(t);
                    cur = n;
                },
                Err(e) => {
                    proof {
                        assert(Self::len_from_frn_3(
                            b@,
                            cur as int,
                            end as int,
                            fspec@,
                        ) < 0);
                    }
                    return Err(e);
                },
            }
        } else {
            m.target_report_descriptor = None;
        }
        proof {
            if m.target_report_descriptor is None {
                lemma_seq_add_empty(acc);
            }
            acc = acc + opt_enc(m.target_report_descriptor);
            assert(acc == b@.subrange(pos as int, cur as int));
            assert((Self::len_from_frn_1(b@, pos as int, end as int, fspec@)
                >= 0) <==> (Self::len_from_frn_4(
                b@,
                cur as int,
                end as int,
                fspec@,
            ) >= 0));
            assert(Self::len_from_frn_4(b@, cur as int, end as int, fspec@) >= 0
                ==> pos + Self::len_from_frn_1(b@, pos as int, end as int, fspec@)
                == cur + Self::len_from_frn_4(b@, cur as int, end as int, fspec@));
        }
        let ghost q4 = cur as int;
        if !is_fspec(MeasuredPositionInPolarCoordinates::FRN_48, fspec.as_slice(), 0) {
            match MeasuredPositionInPolarCoordinates::decode(b, cur, end) {
                Ok((t, n)) => {
                    proof {
                        lemma_subrange_join(b@, pos as int, cur as int, n as int);
                    }
                    m.measured_position_in_polar_coordinates = Some(t);
                    cur = n;
                },
                Err(e) => {
                    proof {
                        assert(Self::len_from_frn_4(
                            b@,
                            cur as int,
                            end as int,
                            fspec@,
                        ) < 0);
                    }
                    return Err(e);
                },
            }
        } else {
            m.measured_position_in_polar_coordinates = None;
        }
        proof {
            if m.measured_position_in_polar_coordinates is None {
                lemma_seq_add_empty(acc);
            }
            acc = acc + opt_enc(m.measured_position_in_polar_coordinates);
            assert(acc == b@.subrange(pos as int, cur as int));
            assert((Self::len_from_frn_1(b@, pos as int, end as int, fspec@)
                >= 0) <==> (Self::len_from_frn_5(
                b@,
                cur as int,
                end as int,
                fspec@,
            ) >= 0));
            assert(Self::len_from_frn_5(b@, cur as int, end as int, fspec@) >= 0
                ==> pos + Self::len_from_frn_1(b@, pos as int, end as int, fspec@)
                == cur + Self::len_from_frn_5(b@, cur as int, end as int, fspec@));
        }
        proof {
            assert(opt_enc(m.data_source_identifier) + opt_enc(m.time_of_day) + opt_enc(m.target_report_descriptor) + opt_enc(m.measured_position_in_polar_coordinates) == acc);
        }
        Ok(cur)
    }

    /// Decodes the Data Items of FRN 5 through 7 into `m`. The
    /// concatenated encodings of the decoded items are exactly the
    /// bytes consumed.
    #[verifier::rlimit(100)]
    #[verifier::spinoff_prover]
    fn decode_frn_5_7(b: &[u8], pos: usize, end: usize, fspec: &Vec<u8>, m: &mut Cat48) -> (r:
        Result<usize, AsterixError>)
        requires
            pos <= end <= b@.len(),
        ensures
            r matches Ok(next) ==> {
                &&& pos <= next <= end
                &&& opt_enc(final(m).mode_3_a_code_in_octal_representation) + opt_enc(final(m).flight_level_in_binary_repre) + opt_enc(final(m).radar_plot_characteristics) == b@.subrange(
                    pos as int,
                    next as int,
                )
                &&& opt_wf(final(m).mode_3_a_code_in_octal_representation)
                &&& opt_wf(final(m).flight_level_in_binary_repre)
                &&& opt_wf(final(m).radar_plot_characteristics)
                &&& (final(m).mode_3_a_code_in_octal_representation is Some <==> (0 < fspec@.len() && 0x08
                    & fspec@[0] == 0x08))
                &&& (final(m).flight_level_in_binary_repre is Some <==> (0 < fspec@.len() && 0x04
                    & fspec@[0] == 0x04))
                &&& (final(m).radar_plot_characteristics is Some <==> (0 < fspec@.len() && 0x02
                    & fspec@[0] == 0x02))
            },
            final(m).fspec == old(m).fspec,
            final(m).data_source_identifier == old(m).data_source_identifier,
            final(m).time_of_day == old(m).time_of_day,
            final(m).target_report_descriptor == old(m).target_report_descriptor,
            final(m).measured_position_in_polar_coordinates == old(m).measured_position_in_polar_coordinates,
            final(m).aircraft_address == old(m).aircraft_address,
            final(m).aircraft_identification == old(m).aircraft_identification,
            final(m).mode_smb_data == old(m).mode_smb_data,
            final(m).track_number == old(m).track_number,
            final(m).calculated_position_cartesian_coor == old(m).calculated_position_cartesian_coor,
            final(m).calculated_track_velocity == old(m).calculated_track_velocity,
            final(m).track_status == old(m).track_status,
            final(m).track_quality == old(m).track_quality,
            final(m).warning_error_con_target_class == old(m).warning_error_con_target_class,
            final(m).mode3a_code_confidence_indicator == old(m).mode3a_code_confidence_indicator,
            final(m).modec_code_and_confidence_indicator == old(m).modec_code_and_confidence_indicator,
            final(m).height_measured_by_3d_radar == old(m).height_measured_by_3d_radar,
            final(m).radial_doppler_speed == old(m).radial_doppler_speed,
            final(m).communications_capability_flight_status == old(m).communications_capability_flight_status,
            final(m).acas_resolution_advisory_report == old(m).acas_resolution_advisory_report,
            final(m).mode_1_code_octal_representation == old(m).mode_1_code_octal_representation,
            final(m).mode_2_code_octal_representation == old(m).mode_2_code_octal_representation,
            final(m).mode_1_code_confidence == old(m).mode_1_code_confidence,
            final(m).mode_2_code_confidence == old(m).mode_2_code_confidence,
            r is Ok <==> Self::len_from_frn_5(b@, pos as int, end as int, fspec@)
                >= 0,
            r matches Ok(next) ==> next == pos + Self::len_from_frn_5(
                b@,
                pos as int,
                end as int,
                fspec@,
            ),
            r matches Err(e) ==> e == AsterixError::Underflow || e
                == AsterixError::InvalidDiscriminant,
    {
        let mut cur = pos;
        let ghost mut acc: Seq<u8> = Seq::empty();
        let ghost q5 = cur as int;
        if !is_fspec(Mode3ACodeInOctalRepresentation::FRN_48, fspec.as_slice(), 0) {
            match Mode3ACodeInOctalRepresentation::decode(b, cur, end) {
                Ok((t, n)) => {
                    proof {
                        lemma_subrange_join(b@, pos as int, cur as int, n as int);
                    }
                    m.mode_3_a_code_in_octal_representation = Some(t);
                    cur = n;
                },
                Err(e) => {
                    proof {
                        assert(Self::len_from_frn_5(
                            b@,
                            cur as int,
                            end as int,
                            fspec@,
                        ) < 0);
                    }
                    return Err(e);
                },
            }
        } else {
            m.mode_3_a_code_in_octal_representation = None;
        }
        proof {
            if m.mode_3_a_code_in_octal_representation is None {
                lemma_seq_add_empty(acc);
            }
            acc = acc + opt_enc(m.mode_3_a_code_in_octal_representation);
            assert(acc =~= opt_enc(m.mode_3_a_code_in_octal_representation));
            assert(acc == b@.subrange(pos as int, cur as int));
            assert((Self::len_from_frn_5(b@, pos as int, end as int, fspec@)
                >= 0) <==> (Self::len_from_frn_6(
                b@,
                cur as int,
                end as int,
                fspec@,
            ) >= 0));
            assert(Self::len_from_frn_6(b@, cur as int, end as int, fspec@) >= 0
                ==> pos + Self::len_from_frn_5(b@, pos as int, end as int, fspec@)
                == cur + Self::len_from_frn_6(b@, cur as int, end as int, fspec@));
        }
        let ghost q6 = cur as int;
        if !is_fspec(FlightLevelInBinaryRepresentation::FRN_48, fspec.as_slice(), 0) {
            match FlightLevelInBinaryRepresentation::decode(b, cur, end) {
                Ok((t, n)) => {
                    proof {
                        lemma_subrange_join(b@, pos as int, cur as int, n as int);
                    }
                    m.flight_level_in_binary_repre = Some(t);
                    cur = n;
                },
                Err(e) => {
                    proof {
                        assert(Self::len_from_frn_6(
                            b@,
                            cur as int,
                            end as int,
                            fspec@,
                        ) < 0);
                    }
                    return Err(e);
                },
            }
        } else {
            m.flight_level_in_binary_repre = None;
        }
        proof {
            if m.flight_level_in_binary_repre is None {
                lemma_seq_add_empty(acc);
            }
            acc = acc + opt_enc(m.flight_level_in_binary_repre);
            assert(acc == b@.subrange(pos as int, cur as int));
            assert((Self::len_from_frn_5(b@, pos as int, end as int, fspec@)
                >= 0) <==> (Self::len_from_frn_7(
                b@,
                cur as int,
                end as int,
                fspec@,
            ) >= 0));
            assert(Self::len_from_frn_7(b@, cur as int, end as int, fspec@) >= 0
                ==> pos + Self::len_from_frn_5(b@, pos as int, end as int, fspec@)
                == cur + Self::len_from_frn_7(b@, cur as int, end as int, fspec@));
        }
        let ghost q7 = cur as int;
        if !is_fspec(RadarPlotCharacteristics::FRN_48, fspec.as_slice(), 0) {
            match RadarPlotCharacteristics::decode(b, cur, end) {
                Ok((t, n)) => {
                    proof {
                        lemma_subrange_join(b@, pos as int, cur as int, n as int);
                    }
                    m.radar_plot_characteristics = Some(t);
                    cur = n;
                },
                Err(e) => {
                    proof {
                        assert(Self::len_from_frn_7(
                            b@,
                            cur as int,
                            end as int,
                            fspec@,
                        ) < 0);
                    }
                    return Err(e);
                },
            }
        } else {
            m.radar_plot_characteristics = None;
        }
        proof {
            if m.radar_plot_characteristics is None {
                lemma_seq_add_empty(acc);
            }
            acc = acc + opt_enc(m.radar_plot_characteristics);
            assert(acc == b@.subrange(pos as int, cur as int));
            assert(Self::len_from_frn_7(b@, q7, end as int, fspec@) == cur - q7);
            assert(Self::len_from_frn_5(b@, pos as int, end as int, fspec@)
                == cur - pos);
        }
        proof {
            assert(opt_enc(m.mode_3_a_code_in_octal_representation) + opt_enc(m.flight_level_in_binary_repre) + opt_enc(m.radar_plot_characteristics) == acc);
        }
        Ok(cur)
    }

    /// Decodes the Data Items of presence-map octet 0 (FRN 1
    /// through 7) into `m`. The concatenated encodings of the
    /// decoded items are exactly the bytes consumed; the other
    /// fields of `m` are untouched.
    #[verifier::rlimit(100)]
    #[verifier::spinoff_prover]
    fn decode_frn_1_7(b: &[u8], pos: usize, end: usize, fspec: &Vec<u8>, m: &mut Cat48) -> (r:
        Result<usize, AsterixError>)
        requires
            pos <= end <= b@.len(),
        ensures
            r matches Ok(next) ==> {
                &&& pos <= next <= end
                &&& opt_enc(final(m).data_source_identifier) + opt_enc(final(m).time_of_day) + opt_enc(final(m).target_report_descriptor) + opt_enc(final(m).measured_position_in_polar_coordinates) + opt_enc(final(m).mode_3_a_code_in_octal_representation) + opt_enc(final(m).flight_level_in_binary_repre) + opt_enc(final(m).radar_plot_characteristics) == b@.subrange(
                    pos as int,
                    next as int,
                )
                &&& opt_wf(final(m).data_source_identifier)
                &&& opt_wf(final(m).time_of_day)
                &&& opt_wf(final(m).target_report_descriptor)
                &&& opt_wf(final(m).measured_position_in_polar_coordinates)
                &&& opt_wf(final(m).mode_3_a_code_in_octal_representation)
                &&& opt_wf(final(m).flight_level_in_binary_repre)
                &&& opt_wf(final(m).radar_plot_characteristics)
                &&& (final(m).data_source_identifier is Some <==> (0 < fspec@.len() && 0x80
                    & fspec@[0] == 0x80))
                &&& (final(m).time_of_day is Some <==> (0 < fspec@.len() && 0x40
                    & fspec@[0] == 0x40))
                &&& (final(m).target_report_descriptor is Some <==> (0 < fspec@.len() && 0x20
                    & fspec@[0] == 0x20))
                &&& (final(m).measured_position_in_polar_coordinates is Some <==> (0 < fspec@.len() && 0x10
                    & fspec@[0] == 0x10))
                &&& (final(m).mode_3_a_code_in_octal_representation is Some <==> (0 < fspec@.len() && 0x08
                    & fspec@[0] == 0x08))
                &&& (final(m).flight_level_in_binary_repre is Some <==> (0 < fspec@.len() && 0x04
                    & fspec@[0] == 0x04))
                &&& (final(m).radar_plot_characteristics is Some <==> (0 < fspec@.len() && 0x02
                    & fspec@[0] == 0x02))
            },
            final(m).fspec == old(m).fspec,
            final(m).aircraft_address == old(m).aircraft_address,
            final(m).aircraft_identification == old(m).aircraft_identification,
            final(m).mode_smb_data == old(m).mode_smb_data,
            final(m).track_number == old(m).track_number,
            final(m).calculated_position_cartesian_coor == old(m).calculated_position_cartesian_coor,
            final(m).calculated_track_velocity == old(m).calculated_track_velocity,
            final(m).track_status == old(m).track_status,
            final(m).track_quality == old(m).track_quality,
            final(m).warning_error_con_target_class == old(m).warning_error_con_target_class,
            final(m).mode3a_code_confidence_indicator == old(m).mode3a_code_confidence_indicator,
            final(m).modec_code_and_confidence_indicator == old(m).modec_code_and_confidence_indicator,
            final(m).height_measured_by_3d_radar == old(m).height_measured_by_3d_radar,
            final(m).radial_doppler_speed == old(m).radial_doppler_speed,
            final(m).communications_capability_flight_status == old(m).communications_capability_flight_status,
            final(m).acas_resolution_advisory_report == old(m).acas_resolution_advisory_report,
            final(m).mode_1_code_octal_representation == old(m).mode_1_code_octal_representation,
            final(m).mode_2_code_octal_representation == old(m).mode_2_code_octal_representation,
            final(m).mode_1_code_confidence == old(m).mode_1_code_confidence,
            final(m).mode_2_code_confidence == old(m).mode_2_code_confidence,
            r is Ok <==> Self::len_from_frn_1(b@, pos as int, end as int, fspec@)
                >= 0,
            r matches Ok(next) ==> next == pos + Self::len_from_frn_1(
                b@,
                pos as int,
                end as int,
                fspec@,
            ),
            r matches Err(e) ==> e == AsterixError::Underflow || e
                == AsterixError::InvalidDiscriminant,
    {
        let mid = match Self::decode_frn_1_4(b, pos, end, fspec, m) {
            Ok(next) => next,
            Err(e) => {
                return Err(e);
            },
        };
        match Self::decode_frn_5_7(b, mid, end, fspec, m) {
            Ok(next) => {
                proof {
                    lemma_subrange_join(b@, pos as int, mid as int, next as int);
                    assert(opt_enc(m.data_source_identifier) + opt_enc(m.time_of_day) + opt_enc(m.target_report_descriptor) + opt_enc(m.measured_position_in_polar_coordinates) + opt_enc(m.mode_3_a_code_in_octal_representation) + opt_enc(m.flight_level_in_binary_repre) + opt_enc(m.radar_plot_characteristics) =~= b@.subrange(
                        pos as int,
                        next as int,
                    ));
                }
                Ok(next)
            },
            Err(e) => Err(e),
        }
    }

    /// Decodes the Data Items of FRN 8 through 11 into `m`,
    /// linking the bytes consumed to the remaining tail of the octet.
    #[verifier::rlimit(100)]
    #[verifier::spinoff_prover]
    fn decode_frn_8_11(b: &[u8], pos: usize, end: usize, fspec: &Vec<u8>, m: &mut Cat48) -> (r:
        Result<usize, AsterixError>)
        requires
            pos <= end <= b@.len(),
        ensures
            r matches Ok(next) ==> {
                &&& pos <= next <= end
                &&& opt_enc(final(m).aircraft_address) + opt_enc(final(m).aircraft_identification) + opt_enc(final(m).mode_smb_data) + opt_enc(final(m).track_number) == b@.subrange(
                    pos as int,
                    next as int,
                )
                &&& opt_wf(final(m).aircraft_address)
                &&& opt_wf(final(m).aircraft_identification)
                &&& opt_wf(final(m).mode_smb_data)
                &&& opt_wf(final(m).track_number)
                &&& (final(m).aircraft_address is Some <==> (1 < fspec@.len() && 0x80
                    & fspec@[1] == 0x80))
                &&& (final(m).aircraft_identification is Some <==> (1 < fspec@.len() && 0x40
                    & fspec@[1] == 0x40))
                &&& (final(m).mode_smb_data is Some <==> (1 < fspec@.len() && 0x20
                    & fspec@[1] == 0x20))
                &&& (final(m).track_number is Some <==> (1 < fspec@.len() && 0x10
                    & fspec@[1] == 0x10))
                &&& ((Self::len_from_frn_8(b@, pos as int, end as int, fspec@) >= 0)
                    <==> (Self::len_from_frn_12(b@, next as int, end as int, fspec@)
                    >= 0))
                &&& (Self::len_from_frn_12(b@, next as int, end as int, fspec@) >= 0
                    ==> pos + Self::len_from_frn_8(b@, pos as int, end as int, fspec@)
                    == next + Self::len_from_frn_12(b@, next as int, end as int, fspec@))
            },
            final(m).fspec == old(m).fspec,
            final(m).data_source_identifier == old(m).data_source_identifier,
            final(m).time_of_day == old(m).time_of_day,
            final(m).target_report_descriptor == old(m).target_report_descriptor,
            final(m).measured_position_in_polar_coordinates == old(m).measured_position_in_polar_coordinates,
            final(m).mode_3_a_code_in_octal_representation == old(m).mode_3_a_code_in_octal_representation,
            final(m).flight_level_in_binary_repre == old(m).flight_level_in_binary_repre,
            final(m).radar_plot_characteristics == old(m).radar_plot_characteristics,
            final(m).calculated_position_cartesian_coor == old(m).calculated_position_cartesian_coor,
            final(m).calculated_track_velocity == old(m).calculated_track_velocity,
            final(m).track_status == old(m).track_status,
            final(m).track_quality == old(m).track_quality,
            final(m).warning_error_con_target_class == old(m).warning_error_con_target_class,
            final(m).mode3a_code_confidence_indicator == old(m).mode3a_code_confidence_indicator,
            final(m).modec_code_and_confidence_indicator == old(m).modec_code_and_confidence_indicator,
            final(m).height_measured_by_3d_radar == old(m).height_measured_by_3d_radar,
            final(m).radial_doppler_speed == old(m).radial_doppler_speed,
            final(m).communications_capability_flight_status == old(m).communications_capability_flight_status,
            final(m).acas_resolution_advisory_report == old(m).acas_resolution_advisory_report,
            final(m).mode_1_code_octal_representation == old(m).mode_1_code_octal_representation,
            final(m).mode_2_code_octal_representation == old(m).mode_2_code_octal_representation,
            final(m).mode_1_code_confidence == old(m).mode_1_code_confidence,
            final(m).mode_2_code_confidence == old(m).mode_2_code_confidence,
            r matches Err(e) ==> (e == AsterixError::Underflow || e
                == AsterixError::InvalidDiscriminant) && Self::len_from_frn_8(
                b@,
                pos as int,
                end as int,
                fspec@,
            ) < 0,
    {
        let mut cur = pos;
        let ghost mut acc: Seq<u8> = Seq::empty();
        let ghost q8 = cur as int;
        if !is_fspec(AircraftAddress::FRN_48, fspec.as_slice(), 1) {
            match AircraftAddress::decode(b, cur, end) {
                Ok((t, n)) => {
                    proof {
                        lemma_subrange_join(b@, pos as int, cur as int, n as int);
                    }
                    m.aircraft_address = Some(t);
                    cur = n;
                },
                Err(e) => {
                    proof {
                        assert(Self::len_from_frn_8(
                            b@,
                            cur as int,
                            end as int,
                            fspec@,
                        ) < 0);
                    }
                    return Err(e);
                },
            }
        } else {
            m.aircraft_address = None;
        }
        proof {
            if m.aircraft_address is None {
                lemma_seq_add_empty(acc);
            }
            acc = acc + opt_enc(m.aircraft_address);
            assert(acc =~= opt_enc(m.aircraft_address));
            assert(acc == b@.subrange(pos as int, cur as int));
            assert((Self::len_from_frn_8(b@, pos as int, end as int, fspec@)
                >= 0) <==> (Self::len_from_frn_9(
                b@,
                cur as int,
                end as int,
                fspec@,
            ) >= 0));
            assert(Self::len_from_frn_9(b@, cur as int, end as int, fspec@) >= 0
                ==> pos + Self::len_from_frn_8(b@, pos as int, end as int, fspec@)
                == cur + Self::len_from_frn_9(b@, cur as int, end as int, fspec@));
        }
        let ghost q9 = cur as int;
        if !is_fspec(AircraftIdentification::FRN_48, fspec.as_slice(), 1) {
            match AircraftIdentification::decode(b, cur, end) {
                Ok((t, n)) => {
                    proof {
                        lemma_subrange_join(b@, pos as int, cur as int, n as int);
                    }
                    m.aircraft_identification = Some(t);
                    cur = n;
                },
                Err(e) => {
                    proof {
                        assert(Self::len_from_frn_9(
                            b@,
                            cur as int,
                            end as int,
                            fspec@,
                        ) < 0);
                    }
                    return Err(e);
                },
            }
        } else {
            m.aircraft_identification = None;
        }
        proof {
            if m.aircraft_identification is None {
                lemma_seq_add_empty(acc);
            }
            acc = acc + opt_enc(m.aircraft_identification);
            assert(acc == b@.subrange(pos as int, cur as int));
            assert((Self::len_from_frn_8(b@, pos as int, end as int, fspec@)
                >= 0) <==> (Self::len_from_frn_10(
                b@,
                cur as int,
                end as int,
                fspec@,
            ) >= 0));
            assert(Self::len_from_frn_10(b@, cur as int, end as int, fspec@) >= 0
                ==> pos + Self::len_from_frn_8(b@, pos as int, end as int, fspec@)
                == cur + Self::len_from_frn_10(b@, cur as int, end as int, fspec@));
        }
        let ghost q10 = cur as int;
        if !is_fspec(ModeSMBData::FRN_48, fspec.as_slice(), 1) {
            match ModeSMBData::decode(b, cur, end) {
                Ok((t, n)) => {
                    proof {
                        lemma_subrange_join(b@, pos as int, cur as int, n as int);
                    }
                    m.mode_smb_data = Some(t);
                    cur = n;
                },
                Err(e) => {
                    proof {
                        assert(Self::len_from_frn_10(
                            b@,
                            cur as int,
                            end as int,
                            fspec@,
                        ) < 0);
                    }
                    return Err(e);
                },
            }
        } else {
            m.mode_smb_data = None;
        }
        proof {
            if m.mode_smb_data is None {
                lemma_seq_add_empty(acc);
            }
            acc = acc + opt_enc(m.mode_smb_data);
            assert(acc == b@.subrange(pos as int, cur as int));
            assert((Self::len_from_frn_8(b@, pos as int, end as int, fspec@)
                >= 0) <==> (Self::len_from_frn_11(
                b@,
                cur as int,
                end as int,
                fspec@,
            ) >= 0));
            assert(Self::len_from_frn_11(b@, cur as int, end as int, fspec@) >= 0
                ==> pos + Self::len_from_frn_8(b@, pos as int, end as int, fspec@)
                == cur + Self::len_from_frn_11(b@, cur as int, end as int, fspec@));
        }
        let ghost q11 = cur as int;
        if !is_fspec(TrackNumber::FRN_48, fspec.as_slice(), 1) {
            match TrackNumber::decode(b, cur, end) {
                Ok((t, n)) => {
                    proof {
                        lemma_subrange_join(b@, pos as int, cur as int, n as int);
                    }
                    m.track_number = Some(t);
                    cur = n;
                },
                Err(e) => {
                    proof {
                        assert(Self::len_from_frn_11(
                            b@,
                            cur as int,
                            end as int,
                            fspec@,
                        ) < 0);
                    }
                    return Err(e);
                },
            }
        } else {
            m.track_number = None;
        }
        proof {
            if m.track_number is None {
                lemma_seq_add_empty(acc);
            }
            acc = acc + opt_enc(m.track_number);
            assert(acc == b@.subrange(pos as int, cur as int));
            assert((Self::len_from_frn_8(b@, pos as int, end as int, fspec@)
                >= 0) <==> (Self::len_from_frn_12(
                b@,
                cur as int,
                end as int,
                fspec@,
            ) >= 0));
            assert(Self::len_from_frn_12(b@, cur as int, end as int, fspec@) >= 0
                ==> pos + Self::len_from_frn_8(b@, pos as int, end as int, fspec@)
                == cur + Self::len_from_frn_12(b@, cur as int, end as int, fspec@));
        }
        proof {
            assert(opt_enc(m.aircraft_address) + opt_enc(m.aircraft_identification) + opt_enc(m.mode_smb_data) + opt_enc(m.track_number) == acc);
        }
        Ok(cur)
    }

    /// Decodes the Data Items of FRN 12 through 14 into `m`. The
    /// concatenated encodings of the decoded items are exactly the
    /// bytes consumed.
    #[verifier::rlimit(100)]
    #[verifier::spinoff_prover]
    fn decode_frn_12_14(b: &[u8], pos: usize, end: usize, fspec: &Vec<u8>, m: &mut Cat48) -> (r:
        Result<usize, AsterixError>)
        requires
            pos <= end <= b@.len(),
        ensures
            r matches Ok(next) ==> {
                &&& pos <= next <= end
                &&& opt_enc(final(m).calculated_position_cartesian_coor) + opt_enc(final(m).calculated_track_velocity) + opt_enc(final(m).track_status) == b@.subrange(
                    pos as int,
                    next as int,
                )
                &&& opt_wf(final(m).calculated_position_cartesian_coor)
                &&& opt_wf(final(m).calculated_track_velocity)
                &&& opt_wf(final(m).track_status)
                &&& (final(m).calculated_position_cartesian_coor is Some <==> (1 < fspec@.len() && 0x08
                    & fspec@[1] == 0x08))
                &&& (final(m).calculated_track_velocity is Some <==> (1 < fspec@.len() && 0x04
                    & fspec@[1] == 0x04))
                &&& (final(m).track_status is Some <==> (1 < fspec@.len() && 0x02
                    & fspec@[1] == 0x02))
            },
            final(m).fspec == old(m).fspec,
            final(m).data_source_identifier == old(m).data_source_identifier,
            final(m).time_of_day == old(m).time_of_day,
            final(m).target_report_descriptor == old(m).target_report_descriptor,
            final(m).measured_position_in_polar_coordinates == old(m).measured_position_in_polar_coordinates,
            final(m).mode_3_a_code_in_octal_representation == old(m).mode_3_a_code_in_octal_representation,
            final(m).flight_level_in_binary_repre == old(m).flight_level_in_binary_repre,
            final(m).radar_plot_characteristics == old(m).radar_plot_characteristics,
            final(m).aircraft_address == old(m).aircraft_address,
            final(m).aircraft_identification == old(m).aircraft_identification,
            final(m).mode_smb_data == old(m).mode_smb_data,
            final(m).track_number == old(m).track_number,
            final(m).track_quality == old(m).track_quality,
            final(m).warning_error_con_target_class == old(m).warning_error_con_target_class,
            final(m).mode3a_code_confidence_indicator == old(m).mode3a_code_confidence_indicator,
            final(m).modec_code_and_confidence_indicator == old(m).modec_code_and_confidence_indicator,
            final(m).height_measured_by_3d_radar == old(m).height_measured_by_3d_radar,
            final(m).radial_doppler_speed == old(m).radial_doppler_speed,
            final(m).communications_capability_flight_status == old(m).communications_capability_flight_status,
            final(m).acas_resolution_advisory_report == old(m).acas_resolution_advisory_report,
            final(m).mode_1_code_octal_representation == old(m).mode_1_code_octal_representation,
            final(m).mode_2_code_octal_representation == old(m).mode_2_code_octal_representation,
            final(m).mode_1_code_confidence == old(m).mode_1_code_confidence,
            final(m).mode_2_code_confidence == old(m).mode_2_code_confidence,
            r is Ok <==> Self::len_from_frn_12(b@, pos as int, end as int, fspec@)
                >= 0,
            r matches Ok(next) ==> next == pos + Self::len_from_frn_12(
                b@,
                pos as int,
                end as int,
                fspec@,
            ),
            r matches Err(e) ==> e == AsterixError::Underflow || e
                == AsterixError::InvalidDiscriminant,
    {
        let mut cur = pos;
        let ghost mut acc: Seq<u8> = Seq::empty();
        let ghost q12 = cur as int;
        if !is_fspec(CalculatedPositionCartesianCorr::FRN_48, fspec.as_slice(), 1) {
            match CalculatedPositionCartesianCorr::decode(b, cur, end) {
                Ok((t, n)) => {
                    proof {
                        lemma_subrange_join(b@, pos as int, cur as int, n as int);
                    }
                    m.calculated_position_cartesian_coor = Some(t);
                    cur = n;
                },
                Err(e) => {
                    proof {
                        assert(Self::len_from_frn_12(
                            b@,
                            cur as int,
                            end as int,
                            fspec@,
                        ) < 0);
                    }
                    return Err(e);
                },
            }
        } else {
            m.calculated_position_cartesian_coor = None;
        }
        proof {
            if m.calculated_position_cartesian_coor is None {
                lemma_seq_add_empty(acc);
            }
            acc = acc + opt_enc(m.calculated_position_cartesian_coor);
            assert(acc =~= opt_enc(m.calculated_position_cartesian_coor));
            assert(acc == b@.subrange(pos as int, cur as int));
            assert((Self::len_from_frn_12(b@, pos as int, end as int, fspec@)
                >= 0) <==> (Self::len_from_frn_13(
                b@,
                cur as int,
                end as int,
                fspec@,
            ) >= 0));
            assert(Self::len_from_frn_13(b@, cur as int, end as int, fspec@) >= 0
                ==> pos + Self::len_from_frn_12(b@, pos as int, end as int, fspec@)
                == cur + Self::len_from_frn_13(b@, cur as int, end as int, fspec@));
        }
        let ghost q13 = cur as int;
        if !is_fspec(CalculatedTrackVelocity::FRN_48, fspec.as_slice(), 1) {
            match CalculatedTrackVelocity::decode(b, cur, end) {
                Ok((t, n)) => {
                    proof {
                        lemma_subrange_join(b@, pos as int, cur as int, n as int);
                    }
                    m.calculated_track_velocity = Some(t);
                    cur = n;
                },
                Err(e) => {
                    proof {
                        assert(Self::len_from_frn_13(
                            b@,
                            cur as int,
                            end as int,
                            fspec@,
                        ) < 0);
                    }
                    return Err(e);
                },
            }
        } else {
            m.calculated_track_velocity = None;
        }
        proof {
            if m.calculated_track_velocity is None {
                lemma_seq_add_empty(acc);
            }
            acc = acc + opt_enc(m.calculated_track_velocity);
            assert(acc == b@.subrange(pos as int, cur as int));
            assert((Self::len_from_frn_12(b@, pos as int, end as int, fspec@)
                >= 0) <==> (Self::len_from_frn_14(
                b@,
                cur as int,
                end as int,
                fspec@,
            ) >= 0));
            assert(Self::len_from_frn_14(b@, cur as int, end as int, fspec@) >= 0
                ==> pos + Self::len_from_frn_12(b@, pos as int, end as int, fspec@)
                == cur + Self::len_from_frn_14(b@, cur as int, end as int, fspec@));
        }
        let ghost q14 = cur as int;
        if !is_fspec(TrackStatus::FRN_48, fspec.as_slice(), 1) {
            match TrackStatus::decode(b, cur, end) {
                Ok((t, n)) => {
                    proof {
                        lemma_subrange_join(b@, pos as int, cur as int, n as int);
                    }
                    m.track_status = Some(t);
                    cur = n;
                },
                Err(e) => {
                    proof {
                        assert(Self::len_from_frn_14(
                            b@,
                            cur as int,
                            end as int,
                            fspec@,
                        ) < 0);
                    }
                    return Err(e);
                },
            }
        } else {
            m.track_status = None;
        }
        proof {
            if m.track_status is None {
                lemma_seq_add_empty(acc);
            }
            acc = acc + opt_enc(m.track_status);
            assert(acc == b@.subrange(pos as int, cur as int));
            assert(Self::len_from_frn_14(b@, q14, end as int, fspec@) == cur - q14);
            assert(Self::len_from_frn_12(b@, pos as int, end as int, fspec@)
                == cur - pos);
        }
        proof {
            assert(opt_enc(m.calculated_position_cartesian_coor) + opt_enc(m.calculated_track_velocity) + opt_enc(m.track_status) == acc);
        }
        Ok(cur)
    }

    /// Decodes the Data Items of presence-map octet 1 (FRN 8
    /// through 14) into `m`. The concatenated encodings of the
    /// decoded items are exactly the bytes consumed; the other
    /// fields of `m` are untouched.
    #[verifier::rlimit(100)]
    #[verifier::spinoff_prover]
    fn decode_frn_8_14(b: &[u8], pos: usize, end: usize, fspec: &Vec<u8>, m: &mut Cat48) -> (r:
        Result<usize, AsterixError>)
        requires
            pos <= end <= b@.len(),
        ensures
            r matches Ok(next) ==> {
                &&& pos <= next <= end
                &&& opt_enc(final(m).aircraft_address) + opt_enc(final(m).aircraft_identification) + opt_enc(final(m).mode_smb_data) + opt_enc(final(m).track_number) + opt_enc(final(m).calculated_position_cartesian_coor) + opt_enc(final(m).calculated_track_velocity) + opt_enc(final(m).track_status) == b@.subrange(
                    pos as int,
                    next as int,
                )
                &&& opt_wf(final(m).aircraft_address)
                &&& opt_wf(final(m).aircraft_identification)
                &&& opt_wf(final(m).mode_smb_data)
                &&& opt_wf(final(m).track_number)
                &&& opt_wf(final(m).calculated_position_cartesian_coor)
                &&& opt_wf(final(m).calculated_track_velocity)
                &&& opt_wf(final(m).track_status)
                &&& (final(m).aircraft_address is Some <==> (1 < fspec@.len() && 0x80
                    & fspec@[1] == 0x80))
                &&& (final(m).aircraft_identification is Some <==> (1 < fspec@.len() && 0x40
                    & fspec@[1] == 0x40))
                &&& (final(m).mode_smb_data is Some <==> (1 < fspec@.len() && 0x20
                    & fspec@[1] == 0x20))
                &&& (final(m).track_number is Some <==> (1 < fspec@.len() && 0x10
                    & fspec@[1] == 0x10))
                &&& (final(m).calculated_position_cartesian_coor is Some <==> (1 < fspec@.len() && 0x08
                    & fspec@[1] == 0x08))
                &&& (final(m).calculated_track_velocity is Some <==> (1 < fspec@.len() && 0x04
                    & fspec@[1] == 0x04))
                &&& (final(m).track_status is Some <==> (1 < fspec@.len() && 0x02
                    & fspec@[1] == 0x02))
            },
            final(m).fspec == old(m).fspec,
            final(m).data_source_identifier == old(m).data_source_identifier,
            final(m).time_of_day == old(m).time_of_day,
            final(m).target_report_descriptor == old(m).target_report_descriptor,
            final(m).measured_position_in_polar_coordinates == old(m).measured_position_in_polar_coordinates,
            final(m).mode_3_a_code_in_octal_representation == old(m).mode_3_a_code_in_octal_representation,
            final(m).flight_level_in_binary_repre == old(m).flight_level_in_binary_repre,
            final(m).radar_plot_characteristics == old(m).radar_plot_characteristics,
            final(m).track_quality == old(m).track_quality,
            final(m).warning_error_con_target_class == old(m).warning_error_con_target_class,
            final(m).mode3a_code_confidence_indicator == old(m).mode3a_code_confidence_indicator,
            final(m).modec_code_and_confidence_indicator == old(m).modec_code_and_confidence_indicator,
            final(m).height_measured_by_3d_radar == old(m).height_measured_by_3d_radar,
            final(m).radial_doppler_speed == old(m).radial_doppler_speed,
            final(m).communications_capability_flight_status == old(m).communications_capability_flight_status,
            final(m).acas_resolution_advisory_report == old(m).acas_resolution_advisory_report,
            final(m).mode_1_code_octal_representation == old(m).mode_1_code_octal_representation,
            final(m).mode_2_code_octal_representation == old(m).mode_2_code_octal_representation,
            final(m).mode_1_code_confidence == old(m).mode_1_code_confidence,
            final(m).mode_2_code_confidence == old(m).mode_2_code_confidence,
            r is Ok <==> Self::len_from_frn_8(b@, pos as int, end as int, fspec@)
                >= 0,
            r matches Ok(next) ==> next == pos + Self::len_from_frn_8(
                b@,
                pos as int,
                end as int,
                fspec@,
            ),
            r matches Err(e) ==> e == AsterixError::Underflow || e
                == AsterixError::InvalidDiscriminant,
    {
        let mid = match Self::decode_frn_8_11(b, pos, end, fspec, m) {
            Ok(next) => next,
            Err(e) => {
                return Err(e);
            },
        };
        match Self::decode_frn_12_14(b, mid, end, fspec, m) {
            Ok(next) => {
                proof {
                    lemma_subrange_join(b@, pos as int, mid as int, next as int);
                    assert(opt_enc(m.aircraft_address) + opt_enc(m.aircraft_identification) + opt_enc(m.mode_smb_data) + opt_enc(m.track_number) + opt_enc(m.calculated_position_cartesian_coor) + opt_enc(m.calculated_track_velocity) + opt_enc(m.track_status) =~= b@.subrange(
                        pos as int,
                        next as int,
                    ));
                }
                Ok(next)
            },
            Err(e) => Err(e),
        }
    }

    /// Decodes the Data Items of FRN 15 through 18 into `m`,
    /// linking the bytes consumed to the remaining tail of the octet.
    #[verifier::rlimit(100)]
    #[verifier::spinoff_prover]
    fn decode_frn_15_18(b: &[u8], pos: usize, end: usize, fspec: &Vec<u8>, m: &mut Cat48) -> (r:
        Result<usize, AsterixError>)
        requires
            pos <= end <= b@.len(),
        ensures
            r matches Ok(next) ==> {
                &&& pos <= next <= end
                &&& opt_enc(final(m).track_quality) + opt_enc(final(m).warning_error_con_target_class) + opt_enc(final(m).mode3a_code_confidence_indicator) + opt_enc(final(m).modec_code_and_confidence_indicator) == b@.subrange(
                    pos as int,
                    next as int,
                )
                &&& opt_wf(final(m).track_quality)
                &&& opt_wf(final(m).warning_error_con_target_class)
                &&& opt_wf(final(m).mode3a_code_confidence_indicator)
                &&& opt_wf(final(m).modec_code_and_confidence_indicator)
                &&& (final(m).track_quality is Some <==> (2 < fspec@.len() && 0x80
                    & fspec@[2] == 0x80))
                &&& (final(m).warning_error_con_target_class is Some <==> (2 < fspec@.len() && 0x40
                    & fspec@[2] == 0x40))
                &&& (final(m).mode3a_code_confidence_indicator is Some <==> (2 < fspec@.len() && 0x20
                    & fspec@[2] == 0x20))
                &&& (final(m).modec_code_and_confidence_indicator is Some <==> (2 < fspec@.len() && 0x10
                    & fspec@[2] == 0x10))
                &&& ((Self::len_from_frn_15(b@, pos as int, end as int, fspec@) >= 0)
                    <==> (Self::len_from_frn_19(b@, next as int, end as int, fspec@)
                    >= 0))
                &&& (Self::len_from_frn_19(b@, next as int, end as int, fspec@) >= 0
                    ==> pos + Self::len_from_frn_15(b@, pos as int, end as int, fspec@)
                    == next + Self::len_from_frn_19(b@, next as int, end as int, fspec@))
            },
            final(m).fspec == old(m).fspec,
            final(m).data_source_identifier == old(m).data_source_identifier,
            final(m).time_of_day == old(m).time_of_day,
            final(m).target_report_descriptor == old(m).target_report_descriptor,
            final(m).measured_position_in_polar_coordinates == old(m).measured_position_in_polar_coordinates,
            final(m).mode_3_a_code_in_octal_representation == old(m).mode_3_a_code_in_octal_representation,
            final(m).flight_level_in_binary_repre == old(m).flight_level_in_binary_repre,
            final(m).radar_plot_characteristics == old(m).radar_plot_characteristics,
            final(m).aircraft_address == old(m).aircraft_address,
            final(m).aircraft_identification == old(m).aircraft_identification,
            final(m).mode_smb_data == old(m).mode_smb_data,
            final(m).track_number == old(m).track_number,
            final(m).calculated_position_cartesian_coor == old(m).calculated_position_cartesian_coor,
            final(m).calculated_track_velocity == old(m).calculated_track_velocity,
            final(m).track_status == old(m).track_status,
            final(m).height_measured_by_3d_radar == old(m).height_measured_by_3d_radar,
            final(m).radial_doppler_speed == old(m).radial_doppler_speed,
            final(m).communications_capability_flight_status == old(m).communications_capability_flight_status,
            final(m).acas_resolution_advisory_report == old(m).acas_resolution_advisory_report,
            final(m).mode_1_code_octal_representation == old(m).mode_1_code_octal_representation,
            final(m).mode_2_code_octal_representation == old(m).mode_2_code_octal_representation,
            final(m).mode_1_code_confidence == old(m).mode_1_code_confidence,
            final(m).mode_2_code_confidence == old(m).mode_2_code_confidence,
            r matches Err(e) ==> (e == AsterixError::Underflow || e
                == AsterixError::InvalidDiscriminant) && Self::len_from_frn_15(
                b@,
                pos as int,
                end as int,
                fspec@,
            ) < 0,
    {
        let mut cur = pos;
        let ghost mut acc: Seq<u8> = Seq::empty();
        let ghost q15 = cur as int;
        if !is_fspec(TrackQuality::FRN_48, fspec.as_slice(), 2) {
            match TrackQuality::decode(b, cur, end) {
                Ok((t, n)) => {
                    proof {
                        lemma_subrange_join(b@, pos as int, cur as int, n as int);
                    }
                    m.track_quality = Some(t);
                    cur = n;
                },
                Err(e) => {
                    proof {
                        assert(Self::len_from_frn_15(
                            b@,
                            cur as int,
                            end as int,
                            fspec@,
                        ) < 0);
                    }
                    return Err(e);
                },
            }
        } else {
            m.track_quality = None;
        }
        proof {
            if m.track_quality is None {
                lemma_seq_add_empty(acc);
            }
            acc = acc + opt_enc(m.track_quality);
            assert(acc =~= opt_enc(m.track_quality));
            assert(acc == b@.subrange(pos as int, cur as int));
            assert((Self::len_from_frn_15(b@, pos as int, end as int, fspec@)
                >= 0) <==> (Self::len_from_frn_16(
                b@,
                cur as int,
                end as int,
                fspec@,
            ) >= 0));
            assert(Self::len_from_frn_16(b@, cur as int, end as int, fspec@) >= 0
                ==> pos + Self::len_from_frn_15(b@, pos as int, end as int, fspec@)
                == cur + Self::len_from_frn_16(b@, cur as int, end as int, fspec@));
        }
        let ghost q16 = cur as int;
        if !is_fspec(WarningErrorConditionsTargetClass::FRN_48, fspec.as_slice(), 2) {
            match WarningErrorConditionsTargetClass::decode(b, cur, end) {
                Ok((t, n)) => {
                    proof {
                        lemma_subrange_join(b@, pos as int, cur as int, n as int);
                    }
                    m.warning_error_con_target_class = Some(t);
                    cur = n;
                },
                Err(e) => {
                    proof {
                        assert(Self::len_from_frn_16(
                            b@,
                            cur as int,
                            end as int,
                            fspec@,
                        ) < 0);
                    }
                    return Err(e);
                },
            }
        } else {
            m.warning_error_con_target_class = None;
        }
        proof {
            if m.warning_error_con_target_class is None {
                lemma_seq_add_empty(acc);
            }
            acc = acc + opt_enc(m.warning_error_con_target_class);
            assert(acc == b@.subrange(pos as int, cur as int));
            assert((Self::len_from_frn_15(b@, pos as int, end as int, fspec@)
                >= 0) <==> (Self::len_from_frn_17(
                b@,
                cur as int,
                end as int,
                fspec@,
            ) >= 0));
            assert(Self::len_from_frn_17(b@, cur as int, end as int, fspec@) >= 0
                ==> pos + Self::len_from_frn_15(b@, pos as int, end as int, fspec@)
                == cur + Self::len_from_frn_17(b@, cur as int, end as int, fspec@));
        }
        let ghost q17 = cur as int;
        if !is_fspec(Mode3ACodeConfidenceIndicator::FRN_48, fspec.as_slice(), 2) {
            match Mode3ACodeConfidenceIndicator::decode(b, cur, end) {
                Ok((t, n)) => {
                    proof {
                        lemma_subrange_join(b@, pos as int, cur as int, n as int);
                    }
                    m.mode3a_code_confidence_indicator = Some(t);
                    cur = n;
                },
                Err(e) => {
                    proof {
                        assert(Self::len_from_frn_17(
                            b@,
                            cur as int,
                            end as int,
                            fspec@,
                        ) < 0);
                    }
                    return Err(e);
                },
            }
        } else {
            m.mode3a_code_confidence_indicator = None;
        }
        proof {
            if m.mode3a_code_confidence_indicator is None {
                lemma_seq_add_empty(acc);
            }
            acc = acc + opt_enc(m.mode3a_code_confidence_indicator);
            assert(acc == b@.subrange(pos as int, cur as int));
            assert((Self::len_from_frn_15(b@, pos as int, end as int, fspec@)
                >= 0) <==> (Self::len_from_frn_18(
                b@,
                cur as int,
                end as int,
                fspec@,
            ) >= 0));
            assert(Self::len_from_frn_18(b@, cur as int, end as int, fspec@) >= 0
                ==> pos + Self::len_from_frn_15(b@, pos as int, end as int, fspec@)
                == cur + Self::len_from_frn_18(b@, cur as int, end as int, fspec@));
        }
        let ghost q18 = cur as int;
        if !is_fspec(ModeCCodeAndConfidenceIndicator::FRN_48, fspec.as_slice(), 2) {
            match ModeCCodeAndConfidenceIndicator::decode(b, cur, end) {
                Ok((t, n)) => {
                    proof {
                        lemma_subrange_join(b@, pos as int, cur as int, n as int);
                    }
                    m.modec_code_and_confidence_indicator = Some(t);
                    cur = n;
                },
                Err(e) => {
                    proof {
                        assert(Self::len_from_frn_18(
                            b@,
                            cur as int,
                            end as int,
                            fspec@,
                        ) < 0);
                    }
                    return Err(e);
                },
            }
        } else {
            m.modec_code_and_confidence_indicator = None;
        }
        proof {
            if m.modec_code_and_confidence_indicator is None {
                lemma_seq_add_empty(acc);
            }
            acc = acc + opt_enc(m.modec_code_and_confidence_indicator);
            assert(acc == b@.subrange(pos as int, cur as int));
            assert((Self::len_from_frn_15(b@, pos as int, end as int, fspec@)
                >= 0) <==> (Self::len_from_frn_19(
                b@,
                cur as int,
                end as int,
                fspec@,
            ) >= 0));
            assert(Self::len_from_frn_19(b@, cur as int, end as int, fspec@) >= 0
                ==> pos + Self::len_from_frn_15(b@, pos as int, end as int, fspec@)
                == cur + Self::len_from_frn_19(b@, cur as int, end as int, fspec@));
        }
        proof {
            assert(opt_enc(m.track_quality) + opt_enc(m.warning_error_con_target_class) + opt_enc(m.mode3a_code_confidence_indicator) + opt_enc(m.modec_code_and_confidence_indicator) == acc);
        }
        Ok(cur)
    }

    /// Decodes the Data Items of FRN 19 through 21 into `m`. The
    /// concatenated encodings of the decoded items are exactly the
    /// bytes consumed.
    #[verifier::rlimit(100)]
    #[verifier::spinoff_prover]
    fn decode_frn_19_21(b: &[u8], pos: usize, end: usize, fspec: &Vec<u8>, m: &mut Cat48) -> (r:
        Result<usize, AsterixError>)
        requires
            pos <= end <= b@.len(),
        ensures
            r matches Ok(next) ==> {
                &&& pos <= next <= end
                &&& opt_enc(final(m).height_measured_by_3d_radar) + opt_enc(final(m).radial_doppler_speed) + opt_enc(final(m).communications_capability_flight_status) == b@.subrange(
                    pos as int,
                    next as int,
                )
                &&& opt_wf(final(m).height_measured_by_3d_radar)
                &&& opt_wf(final(m).radial_doppler_speed)
                &&& opt_wf(final(m).communications_capability_flight_status)
                &&& (final(m).height_measured_by_3d_radar is Some <==> (2 < fspec@.len() && 0x08
                    & fspec@[2] == 0x08))
                &&& (final(m).radial_doppler_speed is Some <==> (2 < fspec@.len() && 0x04
                    & fspec@[2] == 0x04))
                &&& (final(m).communications_capability_flight_status is Some <==> (2 < fspec@.len() && 0x02
                    & fspec@[2] == 0x02))
            },
            final(m).fspec == old(m).fspec,
            final(m).data_source_identifier == old(m).data_source_identifier,
            final(m).time_of_day == old(m).time_of_day,
            final(m).target_report_descriptor == old(m).target_report_descriptor,
            final(m).measured_position_in_polar_coordinates == old(m).measured_position_in_polar_coordinates,
            final(m).mode_3_a_code_in_octal_representation == old(m).mode_3_a_code_in_octal_representation,
            final(m).flight_level_in_binary_repre == old(m).flight_level_in_binary_repre,
            final(m).radar_plot_characteristics == old(m).radar_plot_characteristics,
            final(m).aircraft_address == old(m).aircraft_address,
            final(m).aircraft_identification == old(m).aircraft_identification,
            final(m).mode_smb_data == old(m).mode_smb_data,
            final(m).track_number == old(m).track_number,
            final(m).calculated_position_cartesian_coor == old(m).calculated_position_cartesian_coor,
            final(m).calculated_track_velocity == old(m).calculated_track_velocity,
            final(m).track_status == old(m).track_status,
            final(m).track_quality == old(m).track_quality,
            final(m).warning_error_con_target_class == old(m).warning_error_con_target_class,
            final(m).mode3a_code_confidence_indicator == old(m).mode3a_code_confidence_indicator,
            final(m).modec_code_and_confidence_indicator == old(m).modec_code_and_confidence_indicator,
            final(m).acas_resolution_advisory_report == old(m).acas_resolution_advisory_report,
            final(m).mode_1_code_octal_representation == old(m).mode_1_code_octal_representation,
            final(m).mode_2_code_octal_representation == old(m).mode_2_code_octal_representation,
            final(m).mode_1_code_confidence == old(m).mode_1_code_confidence,
            final(m).mode_2_code_confidence == old(m).mode_2_code_confidence,
            r is Ok <==> Self::len_from_frn_19(b@, pos as int, end as int, fspec@)
                >= 0,
            r matches Ok(next) ==> next == pos + Self::len_from_frn_19(
                b@,
                pos as int,
                end as int,
                fspec@,
            ),
            r matches Err(e) ==> e == AsterixError::Underflow || e
                == AsterixError::InvalidDiscriminant,
    {
        let mut cur = pos;
        let ghost mut acc: Seq<u8> = Seq::empty();
        let ghost q19 = cur as int;
        if !is_fspec(HeightMeasuredBy3dRadar::FRN_48, fspec.as_slice(), 2) {
            match HeightMeasuredBy3dRadar::decode(b, cur, end) {
                Ok((t, n)) => {
                    proof {
                        lemma_subrange_join(b@, pos as int, cur as int, n as int);
                    }
                    m.height_measured_by_3d_radar = Some(t);
                    cur = n;
                },
                Err(e) => {
                    proof {
                        assert(Self::len_from_frn_19(
                            b@,
                            cur as int,
                            end as int,
                            fspec@,
                        ) < 0);
                    }
                    return Err(e);
                },
            }
        } else {
            m.height_measured_by_3d_radar = None;
        }
        proof {
            if m.height_measured_by_3d_radar is None {
                lemma_seq_add_empty(acc);
            }
            acc = acc + opt_enc(m.height_measured_by_3d_radar);
            assert(acc =~= opt_enc(m.height_measured_by_3d_radar));
            assert(acc == b@.subrange(pos as int, cur as int));
            assert((Self::len_from_frn_19(b@, pos as int, end as int, fspec@)
                >= 0) <==> (Self::len_from_frn_20(
                b@,
                cur as int,
                end as int,
                fspec@,
            ) >= 0));
            assert(Self::len_from_frn_20(b@, cur as int, end as int, fspec@) >= 0
                ==> pos + Self::len_from_frn_19(b@, pos as int, end as int, fspec@)
                == cur + Self::len_from_frn_20(b@, cur as int, end as int, fspec@));
        }
        let ghost q20 = cur as int;
        if !is_fspec(RadialDopplerSpeed::FRN_48, fspec.as_slice(), 2) {
            match RadialDopplerSpeed::decode(b, cur, end) {
                Ok((t, n)) => {
                    proof {
                        lemma_subrange_join(b@, pos as int, cur as int, n as int);
                    }
                    m.radial_doppler_speed = Some(t);
                    cur = n;
                },
                Err(e) => {
                    proof {
                        assert(Self::len_from_frn_20(
                            b@,
                            cur as int,
                            end as int,
                            fspec@,
                        ) < 0);
                    }
                    return Err(e);
                },
            }
        } else {
            m.radial_doppler_speed = None;
        }
        proof {
            if m.radial_doppler_speed is None {
                lemma_seq_add_empty(acc);
            }
            acc = acc + opt_enc(m.radial_doppler_speed);
            assert(acc == b@.subrange(pos as int, cur as int));
            assert((Self::len_from_frn_19(b@, pos as int, end as int, fspec@)
                >= 0) <==> (Self::len_from_frn_21(
                b@,
                cur as int,
                end as int,
                fspec@,
            ) >= 0));
            assert(Self::len_from_frn_21(b@, cur as int, end as int, fspec@) >= 0
                ==> pos + Self::len_from_frn_19(b@, pos as int, end as int, fspec@)
                == cur + Self::len_from_frn_21(b@, cur as int, end as int, fspec@));
        }
        let ghost q21 = cur as int;
        if !is_fspec(CommunicationsCapabilityFlightStatus::FRN_48, fspec.as_slice(), 2) {
            match CommunicationsCapabilityFlightStatus::decode(b, cur, end) {
                Ok((t, n)) => {
                    proof {
                        lemma_subrange_join(b@, pos as int, cur as int, n as int);
                    }
                    m.communications_capability_flight_status = Some(t);
                    cur = n;
                },
                Err(e) => {
                    proof {
                        assert(Self::len_from_frn_21(
                            b@,
                            cur as int,
                            end as int,
                            fspec@,
                        ) < 0);
                    }
                    return Err(e);
                },
            }
        } else {
            m.communications_capability_flight_status = None;
        }
        proof {
            if m.communications_capability_flight_status is None {
                lemma_seq_add_empty(acc);
            }
            acc = acc + opt_enc(m.communications_capability_flight_status);
            assert(acc == b@.subrange(pos as int, cur as int));
            assert(Self::len_from_frn_21(b@, q21, end as int, fspec@) == cur - q21);
            assert(Self::len_from_frn_19(b@, pos as int, end as int, fspec@)
                == cur - pos);
        }
        proof {
            assert(opt_enc(m.height_measured_by_3d_radar) + opt_enc(m.radial_doppler_speed) + opt_enc(m.communications_capability_flight_status) == acc);
        }
        Ok(cur)
    }

    /// Decodes the Data Items of presence-map octet 2 (FRN 15
    /// through 21) into `m`. The concatenated encodings of the
    /// decoded items are exactly the bytes consumed; the other
    /// fields of `m` are untouched.
    #[verifier::rlimit(100)]
    #[verifier::spinoff_prover]
    fn decode_frn_15_21(b: &[u8], pos: usize, end: usize, fspec: &Vec<u8>, m: &mut Cat48) -> (r:
        Result<usize, AsterixError>)
        requires
            pos <= end <= b@.len(),
        ensures
            r matches Ok(next) ==> {
                &&& pos <= next <= end
                &&& opt_enc(final(m).track_quality) + opt_enc(final(m).warning_error_con_target_class) + opt_enc(final(m).mode3a_code_confidence_indicator) + opt_enc(final(m).modec_code_and_confidence_indicator) + opt_enc(final(m).height_measured_by_3d_radar) + opt_enc(final(m).radial_doppler_speed) + opt_enc(final(m).communications_capability_flight_status) == b@.subrange(
                    pos as int,
                    next as int,
                )
                &&& opt_wf(final(m).track_quality)
                &&& opt_wf(final(m).warning_error_con_target_class)
                &&& opt_wf(final(m).mode3a_code_confidence_indicator)
                &&& opt_wf(final(m).modec_code_and_confidence_indicator)
                &&& opt_wf(final(m).height_measured_by_3d_radar)
                &&& opt_wf(final(m).radial_doppler_speed)
                &&& opt_wf(final(m).communications_capability_flight_status)
                &&& (final(m).track_quality is Some <==> (2 < fspec@.len() && 0x80
                    & fspec@[2] == 0x80))
                &&& (final(m).warning_error_con_target_class is Some <==> (2 < fspec@.len() && 0x40
                    & fspec@[2] == 0x40))
                &&& (final(m).mode3a_code_confidence_indicator is Some <==> (2 < fspec@.len() && 0x20
                    & fspec@[2] == 0x20))
                &&& (final(m).modec_code_and_confidence_indicator is Some <==> (2 < fspec@.len() && 0x10
                    & fspec@[2] == 0x10))
                &&& (final(m).height_measured_by_3d_radar is Some <==> (2 < fspec@.len() && 0x08
                    & fspec@[2] == 0x08))
                &&& (final(m).radial_doppler_speed is Some <==> (2 < fspec@.len() && 0x04
                    & fspec@[2] == 0x04))
                &&& (final(m).communications_capability_flight_status is Some <==> (2 < fspec@.len() && 0x02
                    & fspec@[2] == 0x02))
            },
            final(m).fspec == old(m).fspec,
            final(m).data_source_identifier == old(m).data_source_identifier,
            final(m).time_of_day == old(m).time_of_day,
            final(m).target_report_descriptor == old(m).target_report_descriptor,
            final(m).measured_position_in_polar_coordinates == old(m).measured_position_in_polar_coordinates,
            final(m).mode_3_a_code_in_octal_representation == old(m).mode_3_a_code_in_octal_representation,
            final(m).flight_level_in_binary_repre == old(m).flight_level_in_binary_repre,
            final(m).radar_plot_characteristics == old(m).radar_plot_characteristics,
            final(m).aircraft_address == old(m).aircraft_address,
            final(m).aircraft_identification == old(m).aircraft_identification,
            final(m).mode_smb_data == old(m).mode_smb_data,
            final(m).track_number == old(m).track_number,
            final(m).calculated_position_cartesian_coor == old(m).calculated_position_cartesian_coor,
            final(m).calculated_track_velocity == old(m).calculated_track_velocity,
            final(m).track_status == old(m).track_status,
            final(m).acas_resolution_advisory_report == old(m).acas_resolution_advisory_report,
            final(m).mode_1_code_octal_representation == old(m).mode_1_code_octal_representation,
            final(m).mode_2_code_octal_representation == old(m).mode_2_code_octal_representation,
            final(m).mode_1_code_confidence == old(m).mode_1_code_confidence,
            final(m).mode_2_code_confidence == old(m).mode_2_code_confidence,
            r is Ok <==> Self::len_from_frn_15(b@, pos as int, end as int, fspec@)
                >= 0,
            r matches Ok(next) ==> next == pos + Self::len_from_frn_15(
                b@,
                pos as int,
                end as int,
                fspec@,
            ),
            r matches Err(e) ==> e == AsterixError::Underflow || e
                == AsterixError::InvalidDiscriminant,
    {
        let mid = match Self::decode_frn_15_18(b, pos, end, fspec, m) {
            Ok(next) => next,
            Err(e) => {
                return Err(e);
            },
        };
        match Self::decode_frn_19_21(b, mid, end, fspec, m) {
            Ok(next) => {
                proof {
                    lemma_subrange_join(b@, pos as int, mid as int, next as int);
                    assert(opt_enc(m.track_quality) + opt_enc(m.warning_error_con_target_class) + opt_enc(m.mode3a_code_confidence_indicator) + opt_enc(m.modec_code_and_confidence_indicator) + opt_enc(m.height_measured_by_3d_radar) + opt_enc(m.radial_doppler_speed) + opt_enc(m.communications_capability_flight_status) =~= b@.subrange(
                        pos as int,
                        next as int,
                    ));
                }
                Ok(next)
            },
            Err(e) => Err(e),
        }
    }

    /// Decodes the Data Items of presence-map octet 3 (FRN 22
    /// through 26) into `m`. The concatenated encodings of the
    /// decoded items are exactly the bytes consumed; the other
    /// fields of `m` are untouched.
    #[verifier::rlimit(100)]
    #[verifier::spinoff_prover]
    fn decode_frn_22_26(b: &[u8], pos: usize, end: usize, fspec: &Vec<u8>, m: &mut Cat48) -> (r:
        Result<usize, AsterixError>)
        requires
            pos <= end <= b@.len(),
        ensures
            r matches Ok(next) ==> {
                &&& pos <= next <= end
                &&& opt_enc(final(m).acas_resolution_advisory_report) + opt_enc(final(m).mode_1_code_octal_representation) + opt_enc(final(m).mode_2_code_octal_representation) + opt_enc(final(m).mode_1_code_confidence) + opt_enc(final(m).mode_2_code_confidence) == b@.subrange(
                    pos as int,
                    next as int,
                )
                &&& opt_wf(final(m).acas_resolution_advisory_report)
                &&& opt_wf(final(m).mode_1_code_octal_representation)
                &&& opt_wf(final(m).mode_2_code_octal_representation)
                &&& opt_wf(final(m).mode_1_code_confidence)
                &&& opt_wf(final(m).mode_2_code_confidence)
                &&& (final(m).acas_resolution_advisory_report is Some <==> (3 < fspec@.len() && 0x80
                    & fspec@[3] == 0x80))
                &&& (final(m).mode_1_code_octal_representation is Some <==> (3 < fspec@.len() && 0x40
                    & fspec@[3] == 0x40))
                &&& (final(m).mode_2_code_octal_representation is Some <==> (3 < fspec@.len() && 0x20
                    & fspec@[3] == 0x20))
                &&& (final(m).mode_1_code_confidence is Some <==> (3 < fspec@.len() && 0x10
                    & fspec@[3] == 0x10))
                &&& (final(m).mode_2_code_confidence is Some <==> (3 < fspec@.len() && 0x08
                    & fspec@[3] == 0x08))
            },
            final(m).fspec == old(m).fspec,
            final(m).data_source_identifier == old(m).data_source_identifier,
            final(m).time_of_day == old(m).time_of_day,
            final(m).target_report_descriptor == old(m).target_report_descriptor,
            final(m).measured_position_in_polar_coordinates == old(m).measured_position_in_polar_coordinates,
            final(m).mode_3_a_code_in_octal_representation == old(m).mode_3_a_code_in_octal_representation,
            final(m).flight_level_in_binary_repre == old(m).flight_level_in_binary_repre,
            final(m).radar_plot_characteristics == old(m).radar_plot_characteristics,
            final(m).aircraft_address == old(m).aircraft_address,
            final(m).aircraft_identification == old(m).aircraft_identification,
            final(m).mode_smb_data == old(m).mode_smb_data,
            final(m).track_number == old(m).track_number,
            final(m).calculated_position_cartesian_coor == old(m).calculated_position_cartesian_coor,
            final(m).calculated_track_velocity == old(m).calculated_track_velocity,
            final(m).track_status == old(m).track_status,
            final(m).track_quality == old(m).track_quality,
            final(m).warning_error_con_target_class == old(m).warning_error_con_target_class,
            final(m).mode3a_code_confidence_indicator == old(m).mode3a_code_confidence_indicator,
            final(m).modec_code_and_confidence_indicator == old(m).modec_code_and_confidence_indicator,
            final(m).height_measured_by_3d_radar == old(m).height_measured_by_3d_radar,
            final(m).radial_doppler_speed == old(m).radial_doppler_speed,
            final(m).communications_capability_flight_status == old(m).communications_capability_flight_status,
            r is Ok <==> Self::len_from_frn_22(b@, pos as int, end as int, fspec@)
                >= 0,
            r matches Ok(next) ==> next == pos + Self::len_from_frn_22(
                b@,
                pos as int,
                end as int,
                fspec@,
            ),
            r matches Err(e) ==> e == AsterixError::Underflow || e
                == AsterixError::InvalidDiscriminant,
    {
        let mut cur = pos;
        let ghost mut acc: Seq<u8> = Seq::empty();
        let ghost q22 = cur as int;
        if !is_fspec(ACASResolutionAdvisoryReport::FRN_48, fspec.as_slice(), 3) {
            match ACASResolutionAdvisoryReport::decode(b, cur, end) {
                Ok((t, n)) => {
                    proof {
                        lemma_subrange_join(b@, pos as int, cur as int, n as int);
                    }
                    m.acas_resolution_advisory_report = Some(t);
                    cur = n;
                },
                Err(e) => {
                    proof {
                        assert(Self::len_from_frn_22(
                            b@,
                            cur as int,
                            end as int,
                            fspec@,
                        ) < 0);
                    }
                    return Err(e);
                },
            }
        } else {
            m.acas_resolution_advisory_report = None;
        }
        proof {
            if m.acas_resolution_advisory_report is None {
                lemma_seq_add_empty(acc);
            }
            acc = acc + opt_enc(m.acas_resolution_advisory_report);
            assert(acc =~= opt_enc(m.acas_resolution_advisory_report));
            assert(acc == b@.subrange(pos as int, cur as int));
            assert((Self::len_from_frn_22(b@, pos as int, end as int, fspec@)
                >= 0) <==> (Self::len_from_frn_23(
                b@,
                cur as int,
                end as int,
                fspec@,
            ) >= 0));
            assert(Self::len_from_frn_23(b@, cur as int, end as int, fspec@) >= 0
                ==> pos + Self::len_from_frn_22(b@, pos as int, end as int, fspec@)
                == cur + Self::len_from_frn_23(b@, cur as int, end as int, fspec@));
        }
        let ghost q23 = cur as int;
        if !is_fspec(Mode1CodeOctalRepresentation::FRN_48, fspec.as_slice(), 3) {
            match Mode1CodeOctalRepresentation::decode(b, cur, end) {
                Ok((t, n)) => {
                    proof {
                        lemma_subrange_join(b@, pos as int, cur as int, n as int);
                    }
                    m.mode_1_code_octal_representation = Some(t);
                    cur = n;
                },
                Err(e) => {
                    proof {
                        assert(Self::len_from_frn_23(
                            b@,
                            cur as int,
                            end as int,
                            fspec@,
                        ) < 0);
                    }
                    return Err(e);
                },
            }
        } else {
            m.mode_1_code_octal_representation = None;
        }
        proof {
            if m.mode_1_code_octal_representation is None {
                lemma_seq_add_empty(acc);
            }
            acc = acc + opt_enc(m.mode_1_code_octal_representation);
            assert(acc == b@.subrange(pos as int, cur as int));
            assert((Self::len_from_frn_22(b@, pos as int, end as int, fspec@)
                >= 0) <==> (Self::len_from_frn_24(
                b@,
                cur as int,
                end as int,
                fspec@,
            ) >= 0));
            assert(Self::len_from_frn_24(b@, cur as int, end as int, fspec@) >= 0
                ==> pos + Self::len_from_frn_22(b@, pos as int, end as int, fspec@)
                == cur + Self::len_from_frn_24(b@, cur as int, end as int, fspec@));
        }
        let ghost q24 = cur as int;
        if !is_fspec(Mode2CodeOctalRepresentation::FRN_48, fspec.as_slice(), 3) {
            match Mode2CodeOctalRepresentation::decode(b, cur, end) {
                Ok((t, n)) => {
                    proof {
                        lemma_subrange_join(b@, pos as int, cur as int, n as int);
                    }
                    m.mode_2_code_octal_representation = Some(t);
                    cur = n;
                },
                Err(e) => {
                    proof {
                        assert(Self::len_from_frn_24(
                            b@,
                            cur as int,
                            end as int,
                            fspec@,
                        ) < 0);
                    }
                    return Err(e);
                },
            }
        } else {
            m.mode_2_code_octal_representation = None;
        }
        proof {
            if m.mode_2_code_octal_representation is None {
                lemma_seq_add_empty(acc);
            }
            acc = acc + opt_enc(m.mode_2_code_octal_representation);
            assert(acc == b@.subrange(pos as int, cur as int));
            assert((Self::len_from_frn_22(b@, pos as int, end as int, fspec@)
                >= 0) <==> (Self::len_from_frn_25(
                b@,
                cur as int,
                end as int,
                fspec@,
            ) >= 0));
            assert(Self::len_from_frn_25(b@, cur as int, end as int, fspec@) >= 0
                ==> pos + Self::len_from_frn_22(b@, pos as int, end as int, fspec@)
                == cur + Self::len_from_frn_25(b@, cur as int, end as int, fspec@));
        }
        let ghost q25 = cur as int;
        if !is_fspec(Mode1CodeConfidenceIndicator::FRN_48, fspec.as_slice(), 3) {
            match Mode1CodeConfidenceIndicator::decode(b, cur, end) {
                Ok((t, n)) => {
                    proof {
                        lemma_subrange_join(b@, pos as int, cur as int, n as int);
                    }
                    m.mode_1_code_confidence = Some(t);
                    cur = n;
                },
                Err(e) => {
                    proof {
                        assert(Self::len_from_frn_25(
                            b@,
                            cur as int,
                            end as int,
                            fspec@,
                        ) < 0);
                    }
                    return Err(e);
                },
            }
        } else {
            m.mode_1_code_confidence = None;
        }
        proof {
            if m.mode_1_code_confidence is None {
                lemma_seq_add_empty(acc);
            }
            acc = acc + opt_enc(m.mode_1_code_confidence);
            assert(acc == b@.subrange(pos as int, cur as int));
            assert((Self::len_from_frn_22(b@, pos as int, end as int, fspec@)
                >= 0) <==> (Self::len_from_frn_26(
                b@,
                cur as int,
                end as int,
                fspec@,
            ) >= 0));
            assert(Self::len_from_frn_26(b@, cur as int, end as int, fspec@) >= 0
                ==> pos + Self::len_from_frn_22(b@, pos as int, end as int, fspec@)
                == cur + Self::len_from_frn_26(b@, cur as int, end as int, fspec@));
        }
        let ghost q26 = cur as int;
        if !is_fspec(Mode2CodeConfidenceIndicator::FRN_48, fspec.as_slice(), 3) {
            match Mode2CodeConfidenceIndicator::decode(b, cur, end) {
                Ok((t, n)) => {
                    proof {
                        lemma_subrange_join(b@, pos as int, cur as int, n as int);
                    }
                    m.mode_2_code_confidence = Some(t);
                    cur = n;
                },
                Err(e) => {
                    proof {
                        assert(Self::len_from_frn_26(
                            b@,
                            cur as int,
                            end as int,
                            fspec@,
                        ) < 0);
                    }
                    return Err(e);
                },
            }
        } else {
            m.mode_2_code_confidence = None;
        }
        proof {
            if m.mode_2_code_confidence is None {
                lemma_seq_add_empty(acc);
            }
            acc = acc + opt_enc(m.mode_2_code_confidence);
            assert(acc == b@.subrange(pos as int, cur as int));
            assert(Self::len_from_frn_26(b@, q26, end as int, fspec@) == cur - q26);
            assert(Self::len_from_frn_22(b@, pos as int, end as int, fspec@)
                == cur - pos);
        }
        proof {
            assert(opt_enc(m.acas_resolution_advisory_report) + opt_enc(m.mode_1_code_octal_representation) + opt_enc(m.mode_2_code_octal_representation) + opt_enc(m.mode_1_code_confidence) + opt_enc(m.mode_2_code_confidence) == acc);
        }
        Ok(cur)
    }

    /// Decodes one record: the presence map, then each asserted Data
    /// Item in FRN order. The decoded record's encoding is exactly the
    /// bytes consumed, so re-encoding it reproduces the input.
    #[verifier::rlimit(100)]
    #[verifier::spinoff_prover]
    pub fn decode(b: &[u8], pos: usize, end: usize) -> (r: Result<
        (Self, usize),
        AsterixError,
    >)
        requires
            pos <= end <= b@.len(),
        ensures
            r matches Ok((m, next)) ==> m.wf() && m.presence_matches()
                && m.fspec_wire_shape() && pos < next <= end && m.enc() == b@.subrange(
                pos as int,
                next as int,
            ),
            r is Ok <==> Self::spec_len(b@, pos as int, end as int) >= 0,
            r matches Ok((m, next)) ==> next == pos + Self::spec_len(
                b@,
                pos as int,
                end as int,
            ),
            r matches Err(e) ==> e == AsterixError::Underflow || e
                == AsterixError::InvalidDiscriminant || e == AsterixError::FrnOutOfRange,
    {
        let (fspec, mut cur) = match read_fspec_chain(b, pos, end) {
            Ok(v) => v,
            Err(e) => {
                return Err(e);
            },
        };
        let ghost fend = chain_end(b@, pos as int, end as int) + 1;
        if fspec.len() >= 4 && fspec[3] & 0x06u8 != 0 {
            proof {
                assert(!Self::frn_range_ok(fspec@));
                assert(Self::spec_len(b@, pos as int, end as int) == -1);
            }
            return Err(AsterixError::FrnOutOfRange);
        }
        let mut oi: usize = 4;
        #[verifier::loop_isolation(false)]
        while oi < fspec.len()
            invariant
                4 <= oi,
                forall|j: int| 4 <= j < oi ==> #[trigger] fspec@[j] & 0xfe == 0,
            decreases fspec@.len() - oi,
        {
            if fspec[oi] & 0xfe != 0 {
                proof {
                    assert(!Self::frn_range_ok(fspec@));
                    assert(Self::spec_len(b@, pos as int, end as int) == -1);
                }
                return Err(AsterixError::FrnOutOfRange);
            }
            oi += 1;
        }
        proof {
            assert(Self::frn_range_ok(fspec@));
        }
        let mut msg = Cat48::default();
        let ghost mut acc: Seq<u8> = fspec@;
        match Self::decode_frn_1_7(b, cur, end, &fspec, &mut msg) {
            Ok(next) => {
                proof {
                    lemma_subrange_join(b@, pos as int, cur as int, next as int);
                    acc = acc + (opt_enc(msg.data_source_identifier) + opt_enc(msg.time_of_day) + opt_enc(msg.target_report_descriptor) + opt_enc(msg.measured_position_in_polar_coordinates) + opt_enc(msg.mode_3_a_code_in_octal_representation) + opt_enc(msg.flight_level_in_binary_repre) + opt_enc(msg.radar_plot_characteristics));
                    assert(acc == b@.subrange(pos as int, next as int));
                }
                cur = next;
            },
            Err(e) => {
                proof {
                    assert(Self::spec_len(b@, pos as int, end as int) == -1);
                }
                return Err(e);
            },
        }
        match Self::decode_frn_8_14(b, cur, end, &fspec, &mut msg) {
            Ok(next) => {
                proof {
                    lemma_subrange_join(b@, pos as int, cur as int, next as int);
                    acc = acc + (opt_enc(msg.aircraft_address) + opt_enc(msg.aircraft_identification) + opt_enc(msg.mode_smb_data) + opt_enc(msg.track_number) + opt_enc(msg.calculated_position_cartesian_coor) + opt_enc(msg.calculated_track_velocity) + opt_enc(msg.track_status));
                    assert(acc == b@.subrange(pos as int, next as int));
                }
                cur = next;
            },
            Err(e) => {
                proof {
                    assert(Self::spec_len(b@, pos as int, end as int) == -1);
                }
                return Err(e);
            },
        }
        match Self::decode_frn_15_21(b, cur, end, &fspec, &mut msg) {
            Ok(next) => {
                proof {
                    lemma_subrange_join(b@, pos as int, cur as int, next as int);
                    acc = acc + (opt_enc(msg.track_quality) + opt_enc(msg.warning_error_con_target_class) + opt_enc(msg.mode3a_code_confidence_indicator) + opt_enc(msg.modec_code_and_confidence_indicator) + opt_enc(msg.height_measured_by_3d_radar) + opt_enc(msg.radial_doppler_speed) + opt_enc(msg.communications_capability_flight_status));
                    assert(acc == b@.subrange(pos as int, next as int));
                }
                cur = next;
            },
            Err(e) => {
                proof {
                    assert(Self::spec_len(b@, pos as int, end as int) == -1);
                }
                return Err(e);
            },
        }
        match Self::decode_frn_22_26(b, cur, end, &fspec, &mut msg) {
            Ok(next) => {
                proof {
                    lemma_subrange_join(b@, pos as int, cur as int, next as int);
                    acc = acc + (opt_enc(msg.acas_resolution_advisory_report) + opt_enc(msg.mode_1_code_octal_representation) + opt_enc(msg.mode_2_code_octal_representation) + opt_enc(msg.mode_1_code_confidence) + opt_enc(msg.mode_2_code_confidence));
                    assert(acc == b@.subrange(pos as int, next as int));
                }
                cur = next;
            },
            Err(e) => {
                proof {
                    assert(Self::spec_len(b@, pos as int, end as int) == -1);
                }
                return Err(e);
            },
        }
        msg.fspec = fspec;
        proof {
            assert(msg.enc() == acc);
            assert(Self::spec_len(b@, pos as int, end as int) == cur - pos);
            assert(msg.fspec_wire_shape());
            assert forall|k: int|
                1 <= k <= 26 implies (fspec_bit(msg.fspec@, k) <==> msg.item_present(k)) by {
                let j = crate::fspec::frn_octet(k);
                if k <= 7 {
                    assert(j == 0);
                } else if k <= 14 {
                    assert(j == 1);
                } else if k <= 21 {
                    assert(j == 2);
                } else if k <= 28 {
                    assert(j == 3);
                }
            }
        }
        Ok((msg, cur))
    }

    /// Encodes the present Data Items of presence-map octet 0
    /// (FRN 1 through 7), appending exactly their concatenated
    /// encodings.
    #[verifier::rlimit(100)]
    #[verifier::spinoff_prover]
    fn encode_frn_1_7(&self, out: &mut Vec<u8>)
        requires
            self.wf(),
        ensures
            final(out)@ == old(out)@ + (opt_enc(self.data_source_identifier) + opt_enc(self.time_of_day) + opt_enc(self.target_report_descriptor) + opt_enc(self.measured_position_in_polar_coordinates) + opt_enc(self.mode_3_a_code_in_octal_representation) + opt_enc(self.flight_level_in_binary_repre) + opt_enc(self.radar_plot_characteristics)),
    {
        let ghost mut acc: Seq<u8> = Seq::empty();
        match &self.data_source_identifier {
            Some(t) => t.encode(out),
            None => (),
        }
        proof {
            if self.data_source_identifier is Some {
                lemma_seq_add_assoc(old(out)@, acc, opt_enc(self.data_source_identifier));
            } else {
                lemma_seq_add_empty(acc);
            }
            acc = acc + opt_enc(self.data_source_identifier);
            assert(acc =~= opt_enc(self.data_source_identifier));
            if self.data_source_identifier is None {
                assert(out@ =~= old(out)@ + acc);
            }
            assert(out@ == old(out)@ + acc);
        }
        match &self.time_of_day {
            Some(t) => t.encode(out),
            None => (),
        }
        proof {
            if self.time_of_day is Some {
                lemma_seq_add_assoc(old(out)@, acc, opt_enc(self.time_of_day));
            } else {
                lemma_seq_add_empty(acc);
            }
            acc = acc + opt_enc(self.time_of_day);
            assert(out@ == old(out)@ + acc);
        }
        match &self.target_report_descriptor {
            Some(t) => t.encode(out),
            None => (),
        }
        proof {
            if self.target_report_descriptor is Some {
                lemma_seq_add_assoc(old(out)@, acc, opt_enc(self.target_report_descriptor));
            } else {
                lemma_seq_add_empty(acc);
            }
            acc = acc + opt_enc(self.target_report_descriptor);
            assert(out@ == old(out)@ + acc);
        }
        match &self.measured_position_in_polar_coordinates {
            Some(t) => t.encode(out),
            None => (),
        }
        proof {
            if self.measured_position_in_polar_coordinates is Some {
                lemma_seq_add_assoc(old(out)@, acc, opt_enc(self.measured_position_in_polar_coordinates));
            } else {
                lemma_seq_add_empty(acc);
            }
            acc = acc + opt_enc(self.measured_position_in_polar_coordinates);
            assert(out@ == old(out)@ + acc);
        }
        match &self.mode_3_a_code_in_octal_representation {
            Some(t) => t.encode(out),
            None => (),
        }
        proof {
            if self.mode_3_a_code_in_octal_representation is Some {
                lemma_seq_add_assoc(old(out)@, acc, opt_enc(self.mode_3_a_code_in_octal_representation));
            } else {
                lemma_seq_add_empty(acc);
            }
            acc = acc + opt_enc(self.mode_3_a_code_in_octal_representation);
            assert(out@ == old(out)@ + acc);
        }
        match &self.flight_level_in_binary_repre {
            Some(t) => t.encode(out),
            None => (),
        }
        proof {
            if self.flight_level_in_binary_repre is Some {
                lemma_seq_add_assoc(old(out)@, acc, opt_enc(self.flight_level_in_binary_repre));
            } else {
                lemma_seq_add_empty(acc);
            }
            acc = acc + opt_enc(self.flight_level_in_binary_repre);
            assert(out@ == old(out)@ + acc);
        }
        match &self.radar_plot_characteristics {
            Some(t) => t.encode(out),
            None => (),
        }
        proof {
            if self.radar_plot_characteristics is Some {
                lemma_seq_add_assoc(old(out)@, acc, opt_enc(self.radar_plot_characteristics));
            } else {
                lemma_seq_add_empty(acc);
            }
            acc = acc + opt_enc(self.radar_plot_characteristics);
            assert(out@ == old(out)@ + acc);
        }
        proof {
            assert(acc == (opt_enc(self.data_source_identifier) + opt_enc(self.time_of_day) + opt_enc(self.target_report_descriptor) + opt_enc(self.measured_position_in_polar_coordinates) + opt_enc(self.mode_3_a_code_in_octal_representation) + opt_enc(self.flight_level_in_binary_repre) + opt_enc(self.radar_plot_characteristics)));
        }
    }

    /// Encodes the present Data Items of presence-map octet 1
    /// (FRN 8 through 14), appending exactly their concatenated
    /// encodings.
    #[verifier::rlimit(100)]
    #[verifier::spinoff_prover]
    fn encode_frn_8_14(&self, out: &mut Vec<u8>)
        requires
            self.wf(),
        ensures
            final(out)@ == old(out)@ + (opt_enc(self.aircraft_address) + opt_enc(self.aircraft_identification) + opt_enc(self.mode_smb_data) + opt_enc(self.track_number) + opt_enc(self.calculated_position_cartesian_coor) + opt_enc(self.calculated_track_velocity) + opt_enc(self.track_status)),
    {
        let ghost mut acc: Seq<u8> = Seq::empty();
        match &self.aircraft_address {
            Some(t) => t.encode(out),
            None => (),
        }
        proof {
            if self.aircraft_address is Some {
                lemma_seq_add_assoc(old(out)@, acc, opt_enc(self.aircraft_address));
            } else {
                lemma_seq_add_empty(acc);
            }
            acc = acc + opt_enc(self.aircraft_address);
            assert(acc =~= opt_enc(self.aircraft_address));
            if self.aircraft_address is None {
                assert(out@ =~= old(out)@ + acc);
            }
            assert(out@ == old(out)@ + acc);
        }
        match &self.aircraft_identification {
            Some(t) => t.encode(out),
            None => (),
        }
        proof {
            if self.aircraft_identification is Some {
                lemma_seq_add_assoc(old(out)@, acc, opt_enc(self.aircraft_identification));
            } else {
                lemma_seq_add_empty(acc);
            }
            acc = acc + opt_enc(self.aircraft_identification);
            assert(out@ == old(out)@ + acc);
        }
        match &self.mode_smb_data {
            Some(t) => t.encode(out),
            None => (),
        }
        proof {
            if self.mode_smb_data is Some {
                lemma_seq_add_assoc(old(out)@, acc, opt_enc(self.mode_smb_data));
            } else {
                lemma_seq_add_empty(acc);
            }
            acc = acc + opt_enc(self.mode_smb_data);
            assert(out@ == old(out)@ + acc);
        }
        match &self.track_number {
            Some(t) => t.encode(out),
            None => (),
        }
        proof {
            if self.track_number is Some {
                lemma_seq_add_assoc(old(out)@, acc, opt_enc(self.track_number));
            } else {
                lemma_seq_add_empty(acc);
            }
            acc = acc + opt_enc(self.track_number);
            assert(out@ == old(out)@ + acc);
        }
        match &self.calculated_position_cartesian_coor {
            Some(t) => t.encode(out),
            None => (),
        }
        proof {
            if self.calculated_position_cartesian_coor is Some {
                lemma_seq_add_assoc(old(out)@, acc, opt_enc(self.calculated_position_cartesian_coor));
            } else {
                lemma_seq_add_empty(acc);
            }
            acc = acc + opt_enc(self.calculated_position_cartesian_coor);
            assert(out@ == old(out)@ + acc);
        }
        match &self.calculated_track_velocity {
            Some(t) => t.encode(out),
            None => (),
        }
        proof {
            if self.calculated_track_velocity is Some {
                lemma_seq_add_assoc(old(out)@, acc, opt_enc(self.calculated_track_velocity));
            } else {
                lemma_seq_add_empty(acc);
            }
            acc = acc + opt_enc(self.calculated_track_velocity);
            assert(out@ == old(out)@ + acc);
        }
        match &self.track_status {
            Some(t) => t.encode(out),
            None => (),
        }
        proof {
            if self.track_status is Some {
                lemma_seq_add_assoc(old(out)@, acc, opt_enc(self.track_status));
            } else {
                lemma_seq_add_empty(acc);
            }
            acc = acc + opt_enc(self.track_status);
            assert(out@ == old(out)@ + acc);
        }
        proof {
            assert(acc == (opt_enc(self.aircraft_address) + opt_enc(self.aircraft_identification) + opt_enc(self.mode_smb_data) + opt_enc(self.track_number) + opt_enc(self.calculated_position_cartesian_coor) + opt_enc(self.calculated_track_velocity) + opt_enc(self.track_status)));
        }
    }

    /// Encodes the present Data Items of presence-map octet 2
    /// (FRN 15 through 21), appending exactly their concatenated
    /// encodings.
    #[verifier::rlimit(100)]
    #[verifier::spinoff_prover]
    fn encode_frn_15_21(&self, out: &mut Vec<u8>)
        requires
            self.wf(),
        ensures
            final(out)@ == old(out)@ + (opt_enc(self.track_quality) + opt_enc(self.warning_error_con_target_class) + opt_enc(self.mode3a_code_confidence_indicator) + opt_enc(self.modec_code_and_confidence_indicator) + opt_enc(self.height_measured_by_3d_radar) + opt_enc(self.radial_doppler_speed) + opt_enc(self.communications_capability_flight_status)),
    {
        let ghost mut acc: Seq<u8> = Seq::empty();
        match &self.track_quality {
            Some(t) => t.encode(out),
            None => (),
        }
        proof {
            if self.track_quality is Some {
                lemma_seq_add_assoc(old(out)@, acc, opt_enc(self.track_quality));
            } else {
                lemma_seq_add_empty(acc);
            }
            acc = acc + opt_enc(self.track_quality);
            assert(acc =~= opt_enc(self.track_quality));
            if self.track_quality is None {
                assert(out@ =~= old(out)@ + acc);
            }
            assert(out@ == old(out)@ + acc);
        }
        match &self.warning_error_con_target_class {
            Some(t) => t.encode(out),
            None => (),
        }
        proof {
            if self.warning_error_con_target_class is Some {
                lemma_seq_add_assoc(old(out)@, acc, opt_enc(self.warning_error_con_target_class));
            } else {
                lemma_seq_add_empty(acc);
            }
            acc = acc + opt_enc(self.warning_error_con_target_class);
            assert(out@ == old(out)@ + acc);
        }
        match &self.mode3a_code_confidence_indicator {
            Some(t) => t.encode(out),
            None => (),
        }
        proof {
            if self.mode3a_code_confidence_indicator is Some {
                lemma_seq_add_assoc(old(out)@, acc, opt_enc(self.mode3a_code_confidence_indicator));
            } else {
                lemma_seq_add_empty(acc);
            }
            acc = acc + opt_enc(self.mode3a_code_confidence_indicator);
            assert(out@ == old(out)@ + acc);
        }
        match &self.modec_code_and_confidence_indicator {
            Some(t) => t.encode(out),
            None => (),
        }
        proof {
            if self.modec_code_and_confidence_indicator is Some {
                lemma_seq_add_assoc(old(out)@, acc, opt_enc(self.modec_code_and_confidence_indicator));
            } else {
                lemma_seq_add_empty(acc);
            }
            acc = acc + opt_enc(self.modec_code_and_confidence_indicator);
            assert(out@ == old(out)@ + acc);
        }
        match &self.height_measured_by_3d_radar {
            Some(t) => t.encode(out),
            None => (),
        }
        proof {
            if self.height_measured_by_3d_radar is Some {
                lemma_seq_add_assoc(old(out)@, acc, opt_enc(self.height_measured_by_3d_radar));
            } else {
                lemma_seq_add_empty(acc);
            }
            acc = acc + opt_enc(self.height_measured_by_3d_radar);
            assert(out@ == old(out)@ + acc);
        }
        match &self.radial_doppler_speed {
            Some(t) => t.encode(out),
            None => (),
        }
        proof {
            if self.radial_doppler_speed is Some {
                lemma_seq_add_assoc(old(out)@, acc, opt_enc(self.radial_doppler_speed));
            } else {
                lemma_seq_add_empty(acc);
            }
            acc = acc + opt_enc(self.radial_doppler_speed);
            assert(out@ == old(out)@ + acc);
        }
        match &self.communications_capability_flight_status {
            Some(t) => t.encode(out),
            None => (),
        }
        proof {
            if self.communications_capability_flight_status is Some {
                lemma_seq_add_assoc(old(out)@, acc, opt_enc(self.communications_capability_flight_status));
            } else {
                lemma_seq_add_empty(acc);
            }
            acc = acc + opt_enc(self.communications_capability_flight_status);
            assert(out@ == old(out)@ + acc);
        }
        proof {
            assert(acc == (opt_enc(self.track_quality) + opt_enc(self.warning_error_con_target_class) + opt_enc(self.mode3a_code_confidence_indicator) + opt_enc(self.modec_code_and_confidence_indicator) + opt_enc(self.height_measured_by_3d_radar) + opt_enc(self.radial_doppler_speed) + opt_enc(self.communications_capability_flight_status)));
        }
    }

    /// Encodes the present Data Items of presence-map octet 3
    /// (FRN 22 through 26), appending exactly their concatenated
    /// encodings.
    #[verifier::rlimit(100)]
    #[verifier::spinoff_prover]
    fn encode_frn_22_26(&self, out: &mut Vec<u8>)
        requires
            self.wf(),
        ensures
            final(out)@ == old(out)@ + (opt_enc(self.acas_resolution_advisory_report) + opt_enc(self.mode_1_code_octal_representation) + opt_enc(self.mode_2_code_octal_representation) + opt_enc(self.mode_1_code_confidence) + opt_enc(self.mode_2_code_confidence)),
    {
        let ghost mut acc: Seq<u8> = Seq::empty();
        match &self.acas_resolution_advisory_report {
            Some(t) => t.encode(out),
            None => (),
        }
        proof {
            if self.acas_resolution_advisory_report is Some {
                lemma_seq_add_assoc(old(out)@, acc, opt_enc(self.acas_resolution_advisory_report));
            } else {
                lemma_seq_add_empty(acc);
            }
            acc = acc + opt_enc(self.acas_resolution_advisory_report);
            assert(acc =~= opt_enc(self.acas_resolution_advisory_report));
            if self.acas_resolution_advisory_report is None {
                assert(out@ =~= old(out)@ + acc);
            }
            assert(out@ == old(out)@ + acc);
        }
        match &self.mode_1_code_octal_representation {
            Some(t) => t.encode(out),
            None => (),
        }
        proof {
            if self.mode_1_code_octal_representation is Some {
                lemma_seq_add_assoc(old(out)@, acc, opt_enc(self.mode_1_code_octal_representation));
            } else {
                lemma_seq_add_empty(acc);
            }
            acc = acc + opt_enc(self.mode_1_code_octal_representation);
            assert(out@ == old(out)@ + acc);
        }
        match &self.mode_2_code_octal_representation {
            Some(t) => t.encode(out),
            None => (),
        }
        proof {
            if self.mode_2_code_octal_representation is Some {
                lemma_seq_add_assoc(old(out)@, acc, opt_enc(self.mode_2_code_octal_representation));
            } else {
                lemma_seq_add_empty(acc);
            }
            acc = acc + opt_enc(self.mode_2_code_octal_representation);
            assert(out@ == old(out)@ + acc);
        }
        match &self.mode_1_code_confidence {
            Some(t) => t.encode(out),
            None => (),
        }
        proof {
            if self.mode_1_code_confidence is Some {
                lemma_seq_add_assoc(old(out)@, acc, opt_enc(self.mode_1_code_confidence));
            } else {
                lemma_seq_add_empty(acc);
            }
            acc = acc + opt_enc(self.mode_1_code_confidence);
            assert(out@ == old(out)@ + acc);
        }
        match &self.mode_2_code_confidence {
            Some(t) => t.encode(out),
            None => (),
        }
        proof {
            if self.mode_2_code_confidence is Some {
                lemma_seq_add_assoc(old(out)@, acc, opt_enc(self.mode_2_code_confidence));
            } else {
                lemma_seq_add_empty(acc);
            }
            acc = acc + opt_enc(self.mode_2_code_confidence);
            assert(out@ == old(out)@ + acc);
        }
        proof {
            assert(acc == (opt_enc(self.acas_resolution_advisory_report) + opt_enc(self.mode_1_code_octal_representation) + opt_enc(self.mode_2_code_octal_representation) + opt_enc(self.mode_1_code_confidence) + opt_enc(self.mode_2_code_confidence)));
        }
    }

    /// Encodes the record: the stored presence map, then each present
    /// Data Item in FRN order. Call `update_fspec` first when the items
    /// have been changed since the record was decoded or built.
    #[verifier::rlimit(100)]
    #[verifier::spinoff_prover]
    pub fn encode(&self, out: &mut Vec<u8>)
        requires
            self.wf(),
        ensures
            final(out)@ == old(out)@ + self.enc(),
    {
        let ghost mut acc: Seq<u8> = self.fspec@;
        crate::wire::push_bytes(out, &self.fspec);
        self.encode_frn_1_7(out);
        proof {
            lemma_seq_add_assoc(old(out)@, acc, (opt_enc(self.data_source_identifier) + opt_enc(self.time_of_day) + opt_enc(self.target_report_descriptor) + opt_enc(self.measured_position_in_polar_coordinates) + opt_enc(self.mode_3_a_code_in_octal_representation) + opt_enc(self.flight_level_in_binary_repre) + opt_enc(self.radar_plot_characteristics)));
            acc = acc + (opt_enc(self.data_source_identifier) + opt_enc(self.time_of_day) + opt_enc(self.target_report_descriptor) + opt_enc(self.measured_position_in_polar_coordinates) + opt_enc(self.mode_3_a_code_in_octal_representation) + opt_enc(self.flight_level_in_binary_repre) + opt_enc(self.radar_plot_characteristics));
            assert(out@ == old(out)@ + acc);
        }
        self.encode_frn_8_14(out);
        proof {
            lemma_seq_add_assoc(old(out)@, acc, (opt_enc(self.aircraft_address) + opt_enc(self.aircraft_identification) + opt_enc(self.mode_smb_data) + opt_enc(self.track_number) + opt_enc(self.calculated_position_cartesian_coor) + opt_enc(self.calculated_track_velocity) + opt_enc(self.track_status)));
            acc = acc + (opt_enc(self.aircraft_address) + opt_enc(self.aircraft_identification) + opt_enc(self.mode_smb_data) + opt_enc(self.track_number) + opt_enc(self.calculated_position_cartesian_coor) + opt_enc(self.calculated_track_velocity) + opt_enc(self.track_status));
            assert(out@ == old(out)@ + acc);
        }
        self.encode_frn_15_21(out);
        proof {
            lemma_seq_add_assoc(old(out)@, acc, (opt_enc(self.track_quality) + opt_enc(self.warning_error_con_target_class) + opt_enc(self.mode3a_code_confidence_indicator) + opt_enc(self.modec_code_and_confidence_indicator) + opt_enc(self.height_measured_by_3d_radar) + opt_enc(self.radial_doppler_speed) + opt_enc(self.communications_capability_flight_status)));
            acc = acc + (opt_enc(self.track_quality) + opt_enc(self.warning_error_con_target_class) + opt_enc(self.mode3a_code_confidence_indicator) + opt_enc(self.modec_code_and_confidence_indicator) + opt_enc(self.height_measured_by_3d_radar) + opt_enc(self.radial_doppler_speed) + opt_enc(self.communications_capability_flight_status));
            assert(out@ == old(out)@ + acc);
        }
        self.encode_frn_22_26(out);
        proof {
            lemma_seq_add_assoc(old(out)@, acc, (opt_enc(self.acas_resolution_advisory_report) + opt_enc(self.mode_1_code_octal_representation) + opt_enc(self.mode_2_code_octal_representation) + opt_enc(self.mode_1_code_confidence) + opt_enc(self.mode_2_code_confidence)));
            acc = acc + (opt_enc(self.acas_resolution_advisory_report) + opt_enc(self.mode_1_code_octal_representation) + opt_enc(self.mode_2_code_octal_representation) + opt_enc(self.mode_1_code_confidence) + opt_enc(self.mode_2_code_confidence));
            assert(out@ == old(out)@ + acc);
        }
        proof {
            assert(acc == self.enc());
        }
    }
}

impl Default for Cat48 {
    /// An empty record: no Data Item present, empty presence map.
    fn default() -> (r: Self)
        ensures
            r.data_source_identifier is None,
            r.time_of_day is None,
            r.target_report_descriptor is None,
            r.measured_position_in_polar_coordinates is None,
            r.mode_3_a_code_in_octal_representation is None,
            r.flight_level_in_binary_repre is None,
            r.radar_plot_characteristics is None,
            r.aircraft_address is None,
            r.aircraft_identification is None,
            r.mode_smb_data is None,
            r.track_number is None,
            r.calculated_position_cartesian_coor is None,
            r.calculated_track_velocity is None,
            r.track_status is None,
            r.track_quality is None,
            r.warning_error_con_target_class is None,
            r.mode3a_code_confidence_indicator is None,
            r.modec_code_and_confidence_indicator is None,
            r.height_measured_by_3d_radar is None,
            r.radial_doppler_speed is None,
            r.communications_capability_flight_status is None,
            r.acas_resolution_advisory_report is None,
            r.mode_1_code_octal_representation is None,
            r.mode_2_code_octal_representation is None,
            r.mode_1_code_confidence is None,
            r.mode_2_code_confidence is None,
            r.fspec@.len() == 0,
            r.wf(),
    {
        Cat48 {
            fspec: Vec::new(),
            data_source_identifier: None,
            time_of_day: None,
            target_report_descriptor: None,
            measured_position_in_polar_coordinates: None,
            mode_3_a_code_in_octal_representation: None,
            flight_level_in_binary_repre: None,
            radar_plot_characteristics: None,
            aircraft_address: None,
            aircraft_identification: None,
            mode_smb_data: None,
            track_number: None,
            calculated_position_cartesian_coor: None,
            calculated_track_velocity: None,
            track_status: None,
            track_quality: None,
            warning_error_con_target_class: None,
            mode3a_code_confidence_indicator: None,
            modec_code_and_confidence_indicator: None,
            height_measured_by_3d_radar: None,
            radial_doppler_speed: None,
            communications_capability_flight_status: None,
            acas_resolution_advisory_report: None,
            mode_1_code_octal_representation: None,
            mode_2_code_octal_representation: None,
            mode_1_code_confidence: None,
            mode_2_code_confidence: None,
        }
    }
}

} // verus!
