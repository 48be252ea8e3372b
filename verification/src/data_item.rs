//! The Data Items of categories 034 and 048.
//!
//! Each item stores the raw wire values of its fields (scaled engineering
//! units are derived views, computed by callers or accessor methods), states
//! its encoding as a specification function `enc`, and decodes to a value
//! whose `enc` is exactly the bytes consumed. Re-encoding a decoded record
//! therefore reproduces the input bytes.
use vstd::prelude::*;

use crate::ia5::{ia5_to_ascii, spec_ia5_to_ascii};
use crate::types::{
    DataFilterTYP, MessageCounterTYP, AIC, ANT, ARC, CDM, CHAB, CLU, CNF, CODE, COM, D, DLF, DOU,
    ERR, FOEFRI, FX, G, GHO, L, MAH, ME, MI, MSC, MSSC, MTYPE, NOGO, OVL, POL, RAB, RAD, RDP, RDPC,
    RDPR, RED, SCF, SI, SIM, SPI, STAT, STC, SUP, TCC, TRE, TST, TSV, TYP, V, XPP,
};
use crate::wire::{lemma_subrange_join, lemma_u16_be, lemma_u24_be, opt_enc, opt_wf, WireItem};
use crate::AsterixError;

verus! {

/// Identification of the radar station from which the data is received.
///
/// Data Item I048/010 and I034/010.
#[derive(Debug, Clone, PartialEq)]
pub struct DataSourceIdentifier {
    /// System Area Code.
    pub sac: u8,
    /// System Identification Code.
    pub sic: u8,
}

impl WireItem for DataSourceIdentifier {
    open spec fn wf(self) -> bool {
        true
    }

    open spec fn enc(self) -> Seq<u8> {
        seq![self.sac, self.sic]
    }
}

impl DataSourceIdentifier {
    pub const FRN_34: u8 = 0b1000_0000;

    pub const FRN_48: u8 = 0b1000_0000;

    /// Bytes this item occupies when decoded at `pos`, or a negative
    /// length when it cannot be decoded there.
    pub open spec fn spec_len(b: Seq<u8>, pos: int, end: int) -> int {
        if pos + 2 <= end {
            2
        } else {
            -1
        }
    }

    pub fn decode(b: &[u8], pos: usize, end: usize) -> (r: Result<
        (Self, usize),
        AsterixError,
    >)
        requires
            pos <= end <= b@.len(),
        ensures
            r matches Ok((t, next)) ==> t.wf() && next == pos + 2 && t.enc() == b@.subrange(
                pos as int,
                next as int,
            ),
            r is Ok <==> pos + 2 <= end,
            r matches Err(e) ==> e == AsterixError::Underflow,
    {
        if end - pos < 2 {
            return Err(AsterixError::Underflow);
        }
        let t = DataSourceIdentifier { sac: b[pos], sic: b[pos + 1] };
        proof {
            assert(t.enc() =~= b@.subrange(pos as int, pos + 2));
        }
        Ok((t, pos + 2))
    }

    pub fn encode(&self, out: &mut Vec<u8>)
        requires
            self.wf(),
        ensures
            final(out)@ == old(out)@ + self.enc(),
    {
        out.push(self.sac);
        out.push(self.sic);
        proof {
            assert(out@ =~= old(out)@ + self.enc());
        }
    }
}

/// Absolute time stamping expressed as UTC, in units of 1/128 s.
///
/// Data Item I048/140 and I034/030.
#[derive(Debug, Clone, PartialEq)]
pub struct TimeOfDay {
    /// Raw 24-bit time of day; seconds are `time / 128`.
    pub time: u32,
}

impl WireItem for TimeOfDay {
    open spec fn wf(self) -> bool {
        self.time < 0x100_0000
    }

    open spec fn enc(self) -> Seq<u8> {
        seq![(self.time >> 16) as u8, (self.time >> 8) as u8, self.time as u8]
    }
}

impl TimeOfDay {
    pub const FRN_34: u8 = 0b10_0000;

    pub const FRN_48: u8 = 0b100_0000;

    /// Bytes this item occupies when decoded at `pos`, or a negative
    /// length when it cannot be decoded there.
    pub open spec fn spec_len(b: Seq<u8>, pos: int, end: int) -> int {
        if pos + 3 <= end {
            3
        } else {
            -1
        }
    }

    pub fn decode(b: &[u8], pos: usize, end: usize) -> (r: Result<
        (Self, usize),
        AsterixError,
    >)
        requires
            pos <= end <= b@.len(),
        ensures
            r matches Ok((t, next)) ==> t.wf() && next == pos + 3 && t.enc() == b@.subrange(
                pos as int,
                next as int,
            ),
            r is Ok <==> pos + 3 <= end,
            r matches Err(e) ==> e == AsterixError::Underflow,
    {
        if end - pos < 3 {
            return Err(AsterixError::Underflow);
        }
        let (b0, b1, b2) = (b[pos], b[pos + 1], b[pos + 2]);
        let time: u32 = ((b0 as u32) << 16) | ((b1 as u32) << 8) | (b2 as u32);
        let t = TimeOfDay { time };
        proof {
            lemma_u24_be(b0, b1, b2);
            assert(t.enc() =~= b@.subrange(pos as int, pos + 3));
        }
        Ok((t, pos + 3))
    }

    pub fn encode(&self, out: &mut Vec<u8>)
        requires
            self.wf(),
        ensures
            final(out)@ == old(out)@ + self.enc(),
    {
        out.push((self.time >> 16) as u8);
        out.push((self.time >> 8) as u8);
        out.push(self.time as u8);
        proof {
            assert(out@ =~= old(out)@ + self.enc());
        }
    }
}

/// 24-bit Mode S address assigned uniquely to each aircraft.
///
/// Data Item I048/220.
#[derive(Debug, Clone, PartialEq)]
pub struct AircraftAddress {
    pub address: u32,
}

impl WireItem for AircraftAddress {
    open spec fn wf(self) -> bool {
        self.address < 0x100_0000
    }

    open spec fn enc(self) -> Seq<u8> {
        seq![(self.address >> 16) as u8, (self.address >> 8) as u8, self.address as u8]
    }
}

impl AircraftAddress {
    pub const FRN_48: u8 = 0b1000_0000;

    /// Bytes this item occupies when decoded at `pos`, or a negative
    /// length when it cannot be decoded there.
    pub open spec fn spec_len(b: Seq<u8>, pos: int, end: int) -> int {
        if pos + 3 <= end {
            3
        } else {
            -1
        }
    }

    pub fn decode(b: &[u8], pos: usize, end: usize) -> (r: Result<
        (Self, usize),
        AsterixError,
    >)
        requires
            pos <= end <= b@.len(),
        ensures
            r matches Ok((t, next)) ==> t.wf() && next == pos + 3 && t.enc() == b@.subrange(
                pos as int,
                next as int,
            ),
            r is Ok <==> pos + 3 <= end,
            r matches Err(e) ==> e == AsterixError::Underflow,
    {
        if end - pos < 3 {
            return Err(AsterixError::Underflow);
        }
        let (b0, b1, b2) = (b[pos], b[pos + 1], b[pos + 2]);
        let address: u32 = ((b0 as u32) << 16) | ((b1 as u32) << 8) | (b2 as u32);
        let t = AircraftAddress { address };
        proof {
            lemma_u24_be(b0, b1, b2);
            assert(t.enc() =~= b@.subrange(pos as int, pos + 3));
        }
        Ok((t, pos + 3))
    }

    pub fn encode(&self, out: &mut Vec<u8>)
        requires
            self.wf(),
        ensures
            final(out)@ == old(out)@ + self.enc(),
    {
        out.push((self.address >> 16) as u8);
        out.push((self.address >> 8) as u8);
        out.push(self.address as u8);
        proof {
            assert(out@ =~= old(out)@ + self.enc());
        }
    }
}

/// Eight most significant bits of the antenna azimuth.
///
/// Data Item I034/020. The raw octet counts sectors of 360/256 degrees.
#[derive(Debug, Clone, PartialEq)]
pub struct SectorNumber {
    /// Raw azimuth octet; degrees are `num * 360 / 256`.
    pub num: u8,
}

impl WireItem for SectorNumber {
    open spec fn wf(self) -> bool {
        true
    }

    open spec fn enc(self) -> Seq<u8> {
        seq![self.num]
    }
}

impl SectorNumber {
    pub const FRN_34: u8 = 0b1_0000;

    /// The azimuth in whole degrees, truncated.
    pub fn degrees(&self) -> (r: u16)
        ensures
            r == self.num as int * 360 / 256,
            r < 360,
    {
        let d: u32 = (self.num as u32) * 360 / 256;
        proof {
            assert(self.num as int * 360 / 256 < 360) by (nonlinear_arith)
                requires
                    0 <= self.num <= 255,
            ;
        }
        d as u16
    }

    /// The sector whose span contains the given azimuth in degrees.
    pub fn from_degrees(deg: u16) -> (r: Self)
        requires
            deg < 360,
        ensures
            r.num == deg as int * 256 / 360,
    {
        proof {
            assert(deg as int * 256 / 360 < 256) by (nonlinear_arith)
                requires
                    0 <= deg < 360,
            ;
        }
        SectorNumber { num: ((deg as u32) * 256 / 360) as u8 }
    }

    /// Bytes this item occupies when decoded at `pos`, or a negative
    /// length when it cannot be decoded there.
    pub open spec fn spec_len(b: Seq<u8>, pos: int, end: int) -> int {
        if pos + 1 <= end {
            1
        } else {
            -1
        }
    }

    pub fn decode(b: &[u8], pos: usize, end: usize) -> (r: Result<
        (Self, usize),
        AsterixError,
    >)
        requires
            pos <= end <= b@.len(),
        ensures
            r matches Ok((t, next)) ==> t.wf() && next == pos + 1 && t.enc() == b@.subrange(
                pos as int,
                next as int,
            ),
            r is Ok <==> pos + 1 <= end,
            r matches Err(e) ==> e == AsterixError::Underflow,
    {
        if end - pos < 1 {
            return Err(AsterixError::Underflow);
        }
        let t = SectorNumber { num: b[pos] };
        proof {
            assert(t.enc() =~= b@.subrange(pos as int, pos + 1));
        }
        Ok((t, pos + 1))
    }

    pub fn encode(&self, out: &mut Vec<u8>)
        requires
            self.wf(),
        ensures
            final(out)@ == old(out)@ + self.enc(),
    {
        out.push(self.num);
        proof {
            assert(out@ =~= old(out)@ + self.enc());
        }
    }
}

/// Antenna rotation period in units of 1/128 s.
///
/// Data Item I034/041.
#[derive(Debug, Clone, PartialEq)]
pub struct AntennaRotationSpeed {
    /// Raw 16-bit period; seconds are `period / 128`.
    pub period: u16,
}

impl WireItem for AntennaRotationSpeed {
    open spec fn wf(self) -> bool {
        true
    }

    open spec fn enc(self) -> Seq<u8> {
        seq![(self.period >> 8) as u8, self.period as u8]
    }
}

impl AntennaRotationSpeed {
    pub const FRN_34: u8 = 0b1000;

    /// Bytes this item occupies when decoded at `pos`, or a negative
    /// length when it cannot be decoded there.
    pub open spec fn spec_len(b: Seq<u8>, pos: int, end: int) -> int {
        if pos + 2 <= end {
            2
        } else {
            -1
        }
    }

    pub fn decode(b: &[u8], pos: usize, end: usize) -> (r: Result<
        (Self, usize),
        AsterixError,
    >)
        requires
            pos <= end <= b@.len(),
        ensures
            r matches Ok((t, next)) ==> t.wf() && next == pos + 2 && t.enc() == b@.subrange(
                pos as int,
                next as int,
            ),
            r is Ok <==> pos + 2 <= end,
            r matches Err(e) ==> e == AsterixError::Underflow,
    {
        if end - pos < 2 {
            return Err(AsterixError::Underflow);
        }
        let (b0, b1) = (b[pos], b[pos + 1]);
        let period: u16 = ((b0 as u16) << 8) | (b1 as u16);
        let t = AntennaRotationSpeed { period };
        proof {
            lemma_u16_be(b0, b1);
            assert(t.enc() =~= b@.subrange(pos as int, pos + 2));
        }
        Ok((t, pos + 2))
    }

    pub fn encode(&self, out: &mut Vec<u8>)
        requires
            self.wf(),
        ensures
            final(out)@ == old(out)@ + self.enc(),
    {
        out.push((self.period >> 8) as u8);
        out.push(self.period as u8);
        proof {
            assert(out@ =~= old(out)@ + self.enc());
        }
    }
}

/// Measured position of an aircraft in local polar co-ordinates.
///
/// Data Item I048/040. Range is in units of 1/256 NM, azimuth in units of
/// 360/2^16 degrees.
#[derive(Debug, Clone, PartialEq)]
pub struct MeasuredPositionInPolarCoordinates {
    /// Raw range; nautical miles are `rho / 256`.
    pub rho: u16,
    /// Raw azimuth; degrees are `theta * 360 / 65536`.
    pub theta: u16,
}

impl WireItem for MeasuredPositionInPolarCoordinates {
    open spec fn wf(self) -> bool {
        true
    }

    open spec fn enc(self) -> Seq<u8> {
        seq![
            (self.rho >> 8) as u8,
            self.rho as u8,
            (self.theta >> 8) as u8,
            self.theta as u8,
        ]
    }
}

impl MeasuredPositionInPolarCoordinates {
    pub const FRN_48: u8 = 0b1_0000;

    /// Bytes this item occupies when decoded at `pos`, or a negative
    /// length when it cannot be decoded there.
    pub open spec fn spec_len(b: Seq<u8>, pos: int, end: int) -> int {
        if pos + 4 <= end {
            4
        } else {
            -1
        }
    }

    pub fn decode(b: &[u8], pos: usize, end: usize) -> (r: Result<
        (Self, usize),
        AsterixError,
    >)
        requires
            pos <= end <= b@.len(),
        ensures
            r matches Ok((t, next)) ==> t.wf() && next == pos + 4 && t.enc() == b@.subrange(
                pos as int,
                next as int,
            ),
            r is Ok <==> pos + 4 <= end,
            r matches Err(e) ==> e == AsterixError::Underflow,
    {
        if end - pos < 4 {
            return Err(AsterixError::Underflow);
        }
        let (b0, b1, b2, b3) = (b[pos], b[pos + 1], b[pos + 2], b[pos + 3]);
        let rho: u16 = ((b0 as u16) << 8) | (b1 as u16);
        let theta: u16 = ((b2 as u16) << 8) | (b3 as u16);
        let t = MeasuredPositionInPolarCoordinates { rho, theta };
        proof {
            lemma_u16_be(b0, b1);
            lemma_u16_be(b2, b3);
            assert(t.enc() =~= b@.subrange(pos as int, pos + 4));
        }
        Ok((t, pos + 4))
    }

    pub fn encode(&self, out: &mut Vec<u8>)
        requires
            self.wf(),
        ensures
            final(out)@ == old(out)@ + self.enc(),
    {
        out.push((self.rho >> 8) as u8);
        out.push(self.rho as u8);
        out.push((self.theta >> 8) as u8);
        out.push(self.theta as u8);
        proof {
            assert(out@ =~= old(out)@ + self.enc());
        }
    }
}

/// Calculated position of an aircraft in Cartesian co-ordinates.
///
/// Data Item I048/042. Both axes are in units of 1/128 NM, two's complement.
#[derive(Debug, Clone, PartialEq)]
pub struct CalculatedPositionCartesianCorr {
    /// Raw signed abscissa; nautical miles are `x / 128`.
    pub x: i16,
    /// Raw signed ordinate; nautical miles are `y / 128`.
    pub y: i16,
}

impl WireItem for CalculatedPositionCartesianCorr {
    open spec fn wf(self) -> bool {
        true
    }

    open spec fn enc(self) -> Seq<u8> {
        seq![
            ((self.x as u16) >> 8) as u8,
            (self.x as u16) as u8,
            ((self.y as u16) >> 8) as u8,
            (self.y as u16) as u8,
        ]
    }
}

impl CalculatedPositionCartesianCorr {
    pub const FRN_48: u8 = 0b1000;

    /// Bytes this item occupies when decoded at `pos`, or a negative
    /// length when it cannot be decoded there.
    pub open spec fn spec_len(b: Seq<u8>, pos: int, end: int) -> int {
        if pos + 4 <= end {
            4
        } else {
            -1
        }
    }

    pub fn decode(b: &[u8], pos: usize, end: usize) -> (r: Result<
        (Self, usize),
        AsterixError,
    >)
        requires
            pos <= end <= b@.len(),
        ensures
            r matches Ok((t, next)) ==> t.wf() && next == pos + 4 && t.enc() == b@.subrange(
                pos as int,
                next as int,
            ),
            r is Ok <==> pos + 4 <= end,
            r matches Err(e) ==> e == AsterixError::Underflow,
    {
        if end - pos < 4 {
            return Err(AsterixError::Underflow);
        }
        let (b0, b1, b2, b3) = (b[pos], b[pos + 1], b[pos + 2], b[pos + 3]);
        let xr: u16 = ((b0 as u16) << 8) | (b1 as u16);
        let yr: u16 = ((b2 as u16) << 8) | (b3 as u16);
        let t = CalculatedPositionCartesianCorr { x: xr as i16, y: yr as i16 };
        proof {
            lemma_u16_be(b0, b1);
            lemma_u16_be(b2, b3);
            assert(t.enc() =~= b@.subrange(pos as int, pos + 4));
        }
        Ok((t, pos + 4))
    }

    pub fn encode(&self, out: &mut Vec<u8>)
        requires
            self.wf(),
        ensures
            final(out)@ == old(out)@ + self.enc(),
    {
        out.push(((self.x as u16) >> 8) as u8);
        out.push((self.x as u16) as u8);
        out.push(((self.y as u16) >> 8) as u8);
        out.push((self.y as u16) as u8);
        proof {
            assert(out@ =~= old(out)@ + self.enc());
        }
    }
}

/// Calculated track velocity in polar co-ordinates.
///
/// Data Item I048/200. Ground speed is in units of 2^-14 NM/s, heading in
/// units of 360/2^16 degrees.
#[derive(Debug, Clone, PartialEq)]
pub struct CalculatedTrackVelocity {
    /// Raw ground speed; NM/s are `groundspeed / 2^14`.
    pub groundspeed: u16,
    /// Raw heading; degrees are `heading * 360 / 65536`.
    pub heading: u16,
}

impl WireItem for CalculatedTrackVelocity {
    open spec fn wf(self) -> bool {
        true
    }

    open spec fn enc(self) -> Seq<u8> {
        seq![
            (self.groundspeed >> 8) as u8,
            self.groundspeed as u8,
            (self.heading >> 8) as u8,
            self.heading as u8,
        ]
    }
}

impl CalculatedTrackVelocity {
    pub const FRN_48: u8 = 0b100;

    /// Bytes this item occupies when decoded at `pos`, or a negative
    /// length when it cannot be decoded there.
    pub open spec fn spec_len(b: Seq<u8>, pos: int, end: int) -> int {
        if pos + 4 <= end {
            4
        } else {
            -1
        }
    }

    pub fn decode(b: &[u8], pos: usize, end: usize) -> (r: Result<
        (Self, usize),
        AsterixError,
    >)
        requires
            pos <= end <= b@.len(),
        ensures
            r matches Ok((t, next)) ==> t.wf() && next == pos + 4 && t.enc() == b@.subrange(
                pos as int,
                next as int,
            ),
            r is Ok <==> pos + 4 <= end,
            r matches Err(e) ==> e == AsterixError::Underflow,
    {
        if end - pos < 4 {
            return Err(AsterixError::Underflow);
        }
        let (b0, b1, b2, b3) = (b[pos], b[pos + 1], b[pos + 2], b[pos + 3]);
        let groundspeed: u16 = ((b0 as u16) << 8) | (b1 as u16);
        let heading: u16 = ((b2 as u16) << 8) | (b3 as u16);
        let t = CalculatedTrackVelocity { groundspeed, heading };
        proof {
            lemma_u16_be(b0, b1);
            lemma_u16_be(b2, b3);
            assert(t.enc() =~= b@.subrange(pos as int, pos + 4));
        }
        Ok((t, pos + 4))
    }

    pub fn encode(&self, out: &mut Vec<u8>)
        requires
            self.wf(),
        ensures
            final(out)@ == old(out)@ + self.enc(),
    {
        out.push((self.groundspeed >> 8) as u8);
        out.push(self.groundspeed as u8);
        out.push((self.heading >> 8) as u8);
        out.push(self.heading as u8);
        proof {
            assert(out@ =~= old(out)@ + self.enc());
        }
    }
}

/// Track quality as a vector of raw standard deviations.
///
/// Data Item I048/210.
#[derive(Debug, Clone, PartialEq)]
pub struct TrackQuality {
    /// Raw horizontal standard deviation; metres are `horizontal_stddev * 128`.
    pub horizontal_stddev: u8,
    /// Raw vertical standard deviation; metres are `vertical_stddev * 128`.
    pub vertical_stddev: u8,
    /// Raw ground-speed deviation; NM/s are `groundspeed_stddev / 2^14`.
    pub groundspeed_stddev: u8,
    /// Raw heading deviation; degrees are `heading_stddev * 360 / 4096`.
    pub heading_stddev: u8,
}

impl WireItem for TrackQuality {
    open spec fn wf(self) -> bool {
        true
    }

    open spec fn enc(self) -> Seq<u8> {
        seq![
            self.horizontal_stddev,
            self.vertical_stddev,
            self.groundspeed_stddev,
            self.heading_stddev,
        ]
    }
}

impl TrackQuality {
    pub const FRN_48: u8 = 0b1000_0000;

    /// Bytes this item occupies when decoded at `pos`, or a negative
    /// length when it cannot be decoded there.
    pub open spec fn spec_len(b: Seq<u8>, pos: int, end: int) -> int {
        if pos + 4 <= end {
            4
        } else {
            -1
        }
    }

    pub fn decode(b: &[u8], pos: usize, end: usize) -> (r: Result<
        (Self, usize),
        AsterixError,
    >)
        requires
            pos <= end <= b@.len(),
        ensures
            r matches Ok((t, next)) ==> t.wf() && next == pos + 4 && t.enc() == b@.subrange(
                pos as int,
                next as int,
            ),
            r is Ok <==> pos + 4 <= end,
            r matches Err(e) ==> e == AsterixError::Underflow,
    {
        if end - pos < 4 {
            return Err(AsterixError::Underflow);
        }
        let t = TrackQuality {
            horizontal_stddev: b[pos],
            vertical_stddev: b[pos + 1],
            groundspeed_stddev: b[pos + 2],
            heading_stddev: b[pos + 3],
        };
        proof {
            assert(t.enc() =~= b@.subrange(pos as int, pos + 4));
        }
        Ok((t, pos + 4))
    }

    pub fn encode(&self, out: &mut Vec<u8>)
        requires
            self.wf(),
        ensures
            final(out)@ == old(out)@ + self.enc(),
    {
        out.push(self.horizontal_stddev);
        out.push(self.vertical_stddev);
        out.push(self.groundspeed_stddev);
        out.push(self.heading_stddev);
        proof {
            assert(out@ =~= old(out)@ + self.enc());
        }
    }
}

/// Currently active ACAS resolution advisory, as a seven-byte Mode S
/// Comm-B message.
///
/// Data Item I048/260.
#[derive(Debug, Clone, PartialEq)]
pub struct ACASResolutionAdvisoryReport {
    pub mb_data: [u8; 7],
}

impl WireItem for ACASResolutionAdvisoryReport {
    open spec fn wf(self) -> bool {
        true
    }

    open spec fn enc(self) -> Seq<u8> {
        self.mb_data@
    }
}

impl ACASResolutionAdvisoryReport {
    pub const FRN_48: u8 = 0b1000_0000;

    /// Bytes this item occupies when decoded at `pos`, or a negative
    /// length when it cannot be decoded there.
    pub open spec fn spec_len(b: Seq<u8>, pos: int, end: int) -> int {
        if pos + 7 <= end {
            7
        } else {
            -1
        }
    }

    pub fn decode(b: &[u8], pos: usize, end: usize) -> (r: Result<
        (Self, usize),
        AsterixError,
    >)
        requires
            pos <= end <= b@.len(),
        ensures
            r matches Ok((t, next)) ==> t.wf() && next == pos + 7 && t.enc() == b@.subrange(
                pos as int,
                next as int,
            ),
            r is Ok <==> pos + 7 <= end,
            r matches Err(e) ==> e == AsterixError::Underflow,
    {
        if end - pos < 7 {
            return Err(AsterixError::Underflow);
        }
        let mb_data: [u8; 7] = [
            b[pos],
            b[pos + 1],
            b[pos + 2],
            b[pos + 3],
            b[pos + 4],
            b[pos + 5],
            b[pos + 6],
        ];
        let t = ACASResolutionAdvisoryReport { mb_data };
        proof {
            assert(t.enc() =~= b@.subrange(pos as int, pos + 7));
        }
        Ok((t, pos + 7))
    }

    pub fn encode(&self, out: &mut Vec<u8>)
        requires
            self.wf(),
        ensures
            final(out)@ == old(out)@ + self.enc(),
    {
        out.push(self.mb_data[0]);
        out.push(self.mb_data[1]);
        out.push(self.mb_data[2]);
        out.push(self.mb_data[3]);
        out.push(self.mb_data[4]);
        out.push(self.mb_data[5]);
        out.push(self.mb_data[6]);
        proof {
            assert(out@ =~= old(out)@ + self.enc());
        }
    }
}

/// Averaged range and azimuth error of the primary position with respect
/// to the SSR position.
///
/// Data Item I034/090. Range error is in units of 1/128 NM, azimuth error
/// in units of 360/2^14 degrees, both two's complement on the wire.
#[derive(Debug, Clone, PartialEq)]
pub struct CollimationError {
    /// Raw range error octet; nautical miles are the signed value over 128.
    pub range_error: u8,
    /// Raw azimuth error octet; degrees are the signed value times 360/2^14.
    pub azimuth_error: u8,
}

impl WireItem for CollimationError {
    open spec fn wf(self) -> bool {
        true
    }

    open spec fn enc(self) -> Seq<u8> {
        seq![self.range_error, self.azimuth_error]
    }
}

impl CollimationError {
    pub const FRN_34: u8 = 0b0000_1000;

    /// Bytes this item occupies when decoded at `pos`, or a negative
    /// length when it cannot be decoded there.
    pub open spec fn spec_len(b: Seq<u8>, pos: int, end: int) -> int {
        if pos + 2 <= end {
            2
        } else {
            -1
        }
    }

    pub fn decode(b: &[u8], pos: usize, end: usize) -> (r: Result<
        (Self, usize),
        AsterixError,
    >)
        requires
            pos <= end <= b@.len(),
        ensures
            r matches Ok((t, next)) ==> t.wf() && next == pos + 2 && t.enc() == b@.subrange(
                pos as int,
                next as int,
            ),
            r is Ok <==> pos + 2 <= end,
            r matches Err(e) ==> e == AsterixError::Underflow,
    {
        if end - pos < 2 {
            return Err(AsterixError::Underflow);
        }
        let t = CollimationError { range_error: b[pos], azimuth_error: b[pos + 1] };
        proof {
            assert(t.enc() =~= b@.subrange(pos as int, pos + 2));
        }
        Ok((t, pos + 2))
    }

    pub fn encode(&self, out: &mut Vec<u8>)
        requires
            self.wf(),
        ensures
            final(out)@ == old(out)@ + self.enc(),
    {
        out.push(self.range_error);
        out.push(self.azimuth_error);
        proof {
            assert(out@ =~= old(out)@ + self.enc());
        }
    }
}

/// Geographical window in polar co-ordinates.
///
/// Data Item I034/100. Ranges are in units of 1/256 NM, azimuths in units
/// of 360/2^16 degrees.
#[derive(Debug, Clone, PartialEq)]
pub struct GenericPolarWindow {
    pub rho_start: u16,
    pub rho_end: u16,
    pub theta_start: u16,
    pub theta_end: u16,
}

impl WireItem for GenericPolarWindow {
    open spec fn wf(self) -> bool {
        true
    }

    open spec fn enc(self) -> Seq<u8> {
        seq![
            (self.rho_start >> 8) as u8,
            self.rho_start as u8,
            (self.rho_end >> 8) as u8,
            self.rho_end as u8,
            (self.theta_start >> 8) as u8,
            self.theta_start as u8,
            (self.theta_end >> 8) as u8,
            self.theta_end as u8,
        ]
    }
}

impl GenericPolarWindow {
    pub const FRN_34: u8 = 0b0100_0000;

    /// Bytes this item occupies when decoded at `pos`, or a negative
    /// length when it cannot be decoded there.
    pub open spec fn spec_len(b: Seq<u8>, pos: int, end: int) -> int {
        if pos + 8 <= end {
            8
        } else {
            -1
        }
    }

    pub fn decode(b: &[u8], pos: usize, end: usize) -> (r: Result<
        (Self, usize),
        AsterixError,
    >)
        requires
            pos <= end <= b@.len(),
        ensures
            r matches Ok((t, next)) ==> t.wf() && next == pos + 8 && t.enc() == b@.subrange(
                pos as int,
                next as int,
            ),
            r is Ok <==> pos + 8 <= end,
            r matches Err(e) ==> e == AsterixError::Underflow,
    {
        if end - pos < 8 {
            return Err(AsterixError::Underflow);
        }
        let (b0, b1, b2, b3) = (b[pos], b[pos + 1], b[pos + 2], b[pos + 3]);
        let (b4, b5, b6, b7) = (b[pos + 4], b[pos + 5], b[pos + 6], b[pos + 7]);
        let t = GenericPolarWindow {
            rho_start: ((b0 as u16) << 8) | (b1 as u16),
            rho_end: ((b2 as u16) << 8) | (b3 as u16),
            theta_start: ((b4 as u16) << 8) | (b5 as u16),
            theta_end: ((b6 as u16) << 8) | (b7 as u16),
        };
        proof {
            lemma_u16_be(b0, b1);
            lemma_u16_be(b2, b3);
            lemma_u16_be(b4, b5);
            lemma_u16_be(b6, b7);
            assert(t.enc() =~= b@.subrange(pos as int, pos + 8));
        }
        Ok((t, pos + 8))
    }

    pub fn encode(&self, out: &mut Vec<u8>)
        requires
            self.wf(),
        ensures
            final(out)@ == old(out)@ + self.enc(),
    {
        out.push((self.rho_start >> 8) as u8);
        out.push(self.rho_start as u8);
        out.push((self.rho_end >> 8) as u8);
        out.push(self.rho_end as u8);
        out.push((self.theta_start >> 8) as u8);
        out.push(self.theta_start as u8);
        out.push((self.theta_end >> 8) as u8);
        out.push(self.theta_end as u8);
        proof {
            assert(out@ =~= old(out)@ + self.enc());
        }
    }
}

/// 3D position of the data source in WGS-84 co-ordinates.
///
/// Data Item I034/120. Height is in metres; latitude and longitude are
/// 24-bit two's complement in units of 180/2^23 degrees.
#[derive(Debug, Clone, PartialEq)]
pub struct ThreeDPositionOfDataSource {
    pub height_of_wgs_84: u16,
    /// Raw 24-bit latitude; degrees are the signed value times 180/2^23.
    pub latitude_in_wgs_84: u32,
    /// Raw 24-bit longitude; degrees are the signed value times 180/2^23.
    pub longitude_in_wgs_84: u32,
}

impl WireItem for ThreeDPositionOfDataSource {
    open spec fn wf(self) -> bool {
        self.latitude_in_wgs_84 < 0x100_0000 && self.longitude_in_wgs_84 < 0x100_0000
    }

    open spec fn enc(self) -> Seq<u8> {
        seq![
            (self.height_of_wgs_84 >> 8) as u8,
            self.height_of_wgs_84 as u8,
            (self.latitude_in_wgs_84 >> 16) as u8,
            (self.latitude_in_wgs_84 >> 8) as u8,
            self.latitude_in_wgs_84 as u8,
            (self.longitude_in_wgs_84 >> 16) as u8,
            (self.longitude_in_wgs_84 >> 8) as u8,
            self.longitude_in_wgs_84 as u8,
        ]
    }
}

impl ThreeDPositionOfDataSource {
    pub const FRN_34: u8 = 0b0001_0000;

    /// Bytes this item occupies when decoded at `pos`, or a negative
    /// length when it cannot be decoded there.
    pub open spec fn spec_len(b: Seq<u8>, pos: int, end: int) -> int {
        if pos + 8 <= end {
            8
        } else {
            -1
        }
    }

    pub fn decode(b: &[u8], pos: usize, end: usize) -> (r: Result<
        (Self, usize),
        AsterixError,
    >)
        requires
            pos <= end <= b@.len(),
        ensures
            r matches Ok((t, next)) ==> t.wf() && next == pos + 8 && t.enc() == b@.subrange(
                pos as int,
                next as int,
            ),
            r is Ok <==> pos + 8 <= end,
            r matches Err(e) ==> e == AsterixError::Underflow,
    {
        if end - pos < 8 {
            return Err(AsterixError::Underflow);
        }
        let (b0, b1, b2, b3) = (b[pos], b[pos + 1], b[pos + 2], b[pos + 3]);
        let (b4, b5, b6, b7) = (b[pos + 4], b[pos + 5], b[pos + 6], b[pos + 7]);
        let t = ThreeDPositionOfDataSource {
            height_of_wgs_84: ((b0 as u16) << 8) | (b1 as u16),
            latitude_in_wgs_84: ((b2 as u32) << 16) | ((b3 as u32) << 8) | (b4 as u32),
            longitude_in_wgs_84: ((b5 as u32) << 16) | ((b6 as u32) << 8) | (b7 as u32),
        };
        proof {
            lemma_u16_be(b0, b1);
            lemma_u24_be(b2, b3, b4);
            lemma_u24_be(b5, b6, b7);
            assert(t.enc() =~= b@.subrange(pos as int, pos + 8));
        }
        Ok((t, pos + 8))
    }

    pub fn encode(&self, out: &mut Vec<u8>)
        requires
            self.wf(),
        ensures
            final(out)@ == old(out)@ + self.enc(),
    {
        out.push((self.height_of_wgs_84 >> 8) as u8);
        out.push(self.height_of_wgs_84 as u8);
        out.push((self.latitude_in_wgs_84 >> 16) as u8);
        out.push((self.latitude_in_wgs_84 >> 8) as u8);
        out.push(self.latitude_in_wgs_84 as u8);
        out.push((self.longitude_in_wgs_84 >> 16) as u8);
        out.push((self.longitude_in_wgs_84 >> 8) as u8);
        out.push(self.longitude_in_wgs_84 as u8);
        proof {
            assert(out@ =~= old(out)@ + self.enc());
        }
    }
}

/// Raw Doppler speed of a target report.
///
/// Sub-field of `RadialDopplerSpeed`.
#[derive(Debug, Clone, PartialEq)]
pub struct RawDopplerSpeed {
    /// Repetition factor.
    pub rep: u8,
    /// Doppler speed, 1 m/s.
    pub dop: u16,
    /// Ambiguity range, 1 m/s.
    pub amb: u16,
    /// Transmitter frequency, 1 MHz.
    pub frq: u16,
}

impl WireItem for RawDopplerSpeed {
    open spec fn wf(self) -> bool {
        true
    }

    open spec fn enc(self) -> Seq<u8> {
        seq![
            self.rep,
            (self.dop >> 8) as u8,
            self.dop as u8,
            (self.amb >> 8) as u8,
            self.amb as u8,
            (self.frq >> 8) as u8,
            self.frq as u8,
        ]
    }
}

impl RawDopplerSpeed {
    /// Bytes this item occupies when decoded at `pos`, or a negative
    /// length when it cannot be decoded there.
    pub open spec fn spec_len(b: Seq<u8>, pos: int, end: int) -> int {
        if pos + 7 <= end {
            7
        } else {
            -1
        }
    }

    pub fn decode(b: &[u8], pos: usize, end: usize) -> (r: Result<
        (Self, usize),
        AsterixError,
    >)
        requires
            pos <= end <= b@.len(),
        ensures
            r matches Ok((t, next)) ==> t.wf() && next == pos + 7 && t.enc() == b@.subrange(
                pos as int,
                next as int,
            ),
            r is Ok <==> pos + 7 <= end,
            r matches Err(e) ==> e == AsterixError::Underflow,
    {
        if end - pos < 7 {
            return Err(AsterixError::Underflow);
        }
        let (b0, b1, b2, b3) = (b[pos], b[pos + 1], b[pos + 2], b[pos + 3]);
        let (b4, b5, b6) = (b[pos + 4], b[pos + 5], b[pos + 6]);
        let t = RawDopplerSpeed {
            rep: b0,
            dop: ((b1 as u16) << 8) | (b2 as u16),
            amb: ((b3 as u16) << 8) | (b4 as u16),
            frq: ((b5 as u16) << 8) | (b6 as u16),
        };
        proof {
            lemma_u16_be(b1, b2);
            lemma_u16_be(b3, b4);
            lemma_u16_be(b5, b6);
            assert(t.enc() =~= b@.subrange(pos as int, pos + 7));
        }
        Ok((t, pos + 7))
    }

    pub fn encode(&self, out: &mut Vec<u8>)
        requires
            self.wf(),
        ensures
            final(out)@ == old(out)@ + self.enc(),
    {
        out.push(self.rep);
        out.push((self.dop >> 8) as u8);
        out.push(self.dop as u8);
        out.push((self.amb >> 8) as u8);
        out.push(self.amb as u8);
        out.push((self.frq >> 8) as u8);
        out.push(self.frq as u8);
        proof {
            assert(out@ =~= old(out)@ + self.enc());
        }
    }
}

/// An octet carrying four one-bit flags and the top of a 12-bit field
/// splits into those parts and reassembles from them.
proof fn lemma_split_1_1_1_1_12(b0: u8, b1: u8)
    by (bit_vector)
    ensures
        (b0 >> 7) & 1 <= 1,
        (b0 >> 6) & 1 <= 1,
        (b0 >> 5) & 1 <= 1,
        (b0 >> 4) & 1 <= 1,
        ((((b0 & 0xf) as u16) << 8) | (b1 as u16)) < 0x1000,
        ((((b0 >> 7) & 1) << 7) | (((b0 >> 6) & 1) << 6) | (((b0 >> 5) & 1) << 5) | (((b0 >> 4) & 1)
            << 4) | ((((((b0 & 0xf) as u16) << 8) | (b1 as u16)) >> 8) as u8)) == b0,
        ((((b0 & 0xf) as u16) << 8) | (b1 as u16)) as u8 == b1,
{
}

/// Mode-3/A code in octal representation.
///
/// Data Item I048/070.
#[derive(Debug, Clone, PartialEq)]
pub struct Mode3ACodeInOctalRepresentation {
    pub v: V,
    pub g: G,
    pub l: L,
    pub reserved: u8,
    /// Mode-3/A reply, four octal digits in twelve bits.
    pub reply: u16,
}

impl WireItem for Mode3ACodeInOctalRepresentation {
    open spec fn wf(self) -> bool {
        self.reserved <= 1 && self.reply < 0x1000
    }

    open spec fn enc(self) -> Seq<u8> {
        seq![
            (self.v.as_bits() << 7) | (self.g.as_bits() << 6) | (self.l.as_bits() << 5) | (
            self.reserved << 4) | ((self.reply >> 8) as u8),
            self.reply as u8,
        ]
    }
}

impl Mode3ACodeInOctalRepresentation {
    pub const FRN_48: u8 = 0b1000;

    /// Bytes this item occupies when decoded at `pos`, or a negative
    /// length when it cannot be decoded there.
    pub open spec fn spec_len(b: Seq<u8>, pos: int, end: int) -> int {
        if pos + 2 <= end {
            2
        } else {
            -1
        }
    }

    pub fn decode(b: &[u8], pos: usize, end: usize) -> (r: Result<
        (Self, usize),
        AsterixError,
    >)
        requires
            pos <= end <= b@.len(),
        ensures
            r matches Ok((t, next)) ==> t.wf() && next == pos + 2 && t.enc() == b@.subrange(
                pos as int,
                next as int,
            ),
            r is Ok <==> pos + 2 <= end,
            r matches Err(e) ==> e == AsterixError::Underflow,
    {
        if end - pos < 2 {
            return Err(AsterixError::Underflow);
        }
        let (b0, b1) = (b[pos], b[pos + 1]);
        proof {
            lemma_split_1_1_1_1_12(b0, b1);
        }
        let t = Mode3ACodeInOctalRepresentation {
            v: V::from_bits((b0 >> 7) & 1),
            g: G::from_bits((b0 >> 6) & 1),
            l: L::from_bits((b0 >> 5) & 1),
            reserved: (b0 >> 4) & 1,
            reply: (((b0 & 0xf) as u16) << 8) | (b1 as u16),
        };
        proof {
            assert(t.enc() =~= b@.subrange(pos as int, pos + 2));
        }
        Ok((t, pos + 2))
    }

    pub fn encode(&self, out: &mut Vec<u8>)
        requires
            self.wf(),
        ensures
            final(out)@ == old(out)@ + self.enc(),
    {
        out.push(
            (self.v.to_bits() << 7) | (self.g.to_bits() << 6) | (self.l.to_bits() << 5) | (
            self.reserved << 4) | ((self.reply >> 8) as u8),
        );
        out.push(self.reply as u8);
        proof {
            assert(out@ =~= old(out)@ + self.enc());
        }
    }
}

/// An octet carrying two one-bit flags and the top of a 14-bit field
/// splits into those parts and reassembles from them.
proof fn lemma_split_1_1_14(b0: u8, b1: u8)
    by (bit_vector)
    ensures
        (b0 >> 7) & 1 <= 1,
        (b0 >> 6) & 1 <= 1,
        ((((b0 & 0x3f) as u16) << 8) | (b1 as u16)) < 0x4000,
        ((((b0 >> 7) & 1) << 7) | (((b0 >> 6) & 1) << 6) | ((((((b0 & 0x3f) as u16) << 8) | (
        b1 as u16)) >> 8) as u8)) == b0,
        ((((b0 & 0x3f) as u16) << 8) | (b1 as u16)) as u8 == b1,
{
}

/// Flight level in binary representation.
///
/// Data Item I048/090. The raw field counts quarter flight levels.
#[derive(Debug, Clone, PartialEq)]
pub struct FlightLevelInBinaryRepresentation {
    pub v: V,
    pub g: G,
    /// Raw 14-bit value in quarter flight levels; whole flight levels are
    /// `flight_level / 4`.
    pub flight_level: u16,
}

impl WireItem for FlightLevelInBinaryRepresentation {
    open spec fn wf(self) -> bool {
        self.flight_level < 0x4000
    }

    open spec fn enc(self) -> Seq<u8> {
        seq![
            (self.v.as_bits() << 7) | (self.g.as_bits() << 6) | ((self.flight_level >> 8) as u8),
            self.flight_level as u8,
        ]
    }
}

impl FlightLevelInBinaryRepresentation {
    pub const FRN_48: u8 = 0b100;

    /// The whole flight level, truncated.
    pub fn level(&self) -> (r: u16)
        ensures
            r == self.flight_level / 4,
    {
        self.flight_level / 4
    }

    /// Bytes this item occupies when decoded at `pos`, or a negative
    /// length when it cannot be decoded there.
    pub open spec fn spec_len(b: Seq<u8>, pos: int, end: int) -> int {
        if pos + 2 <= end {
            2
        } else {
            -1
        }
    }

    pub fn decode(b: &[u8], pos: usize, end: usize) -> (r: Result<
        (Self, usize),
        AsterixError,
    >)
        requires
            pos <= end <= b@.len(),
        ensures
            r matches Ok((t, next)) ==> t.wf() && next == pos + 2 && t.enc() == b@.subrange(
                pos as int,
                next as int,
            ),
            r is Ok <==> pos + 2 <= end,
            r matches Err(e) ==> e == AsterixError::Underflow,
    {
        if end - pos < 2 {
            return Err(AsterixError::Underflow);
        }
        let (b0, b1) = (b[pos], b[pos + 1]);
        proof {
            lemma_split_1_1_14(b0, b1);
        }
        let t = FlightLevelInBinaryRepresentation {
            v: V::from_bits((b0 >> 7) & 1),
            g: G::from_bits((b0 >> 6) & 1),
            flight_level: (((b0 & 0x3f) as u16) << 8) | (b1 as u16),
        };
        proof {
            assert(t.enc() =~= b@.subrange(pos as int, pos + 2));
        }
        Ok((t, pos + 2))
    }

    pub fn encode(&self, out: &mut Vec<u8>)
        requires
            self.wf(),
        ensures
            final(out)@ == old(out)@ + self.enc(),
    {
        out.push(
            (self.v.to_bits() << 7) | (self.g.to_bits() << 6) | ((self.flight_level >> 8) as u8),
        );
        out.push(self.flight_level as u8);
        proof {
            assert(out@ =~= old(out)@ + self.enc());
        }
    }
}

/// An octet carrying a four-bit field and the top of a 12-bit field splits
/// into those parts and reassembles from them.
proof fn lemma_split_4_12(b0: u8, b1: u8)
    by (bit_vector)
    ensures
        (b0 >> 4) <= 15,
        ((((b0 & 0xf) as u16) << 8) | (b1 as u16)) < 0x1000,
        (((b0 >> 4) << 4) | ((((((b0 & 0xf) as u16) << 8) | (b1 as u16)) >> 8) as u8)) == b0,
        ((((b0 & 0xf) as u16) << 8) | (b1 as u16)) as u8 == b1,
{
}

/// Unique reference to a track record within a track file.
///
/// Data Item I048/161.
#[derive(Debug, Clone, PartialEq)]
pub struct TrackNumber {
    pub reserved: u8,
    pub number: u16,
}

impl WireItem for TrackNumber {
    open spec fn wf(self) -> bool {
        self.reserved <= 15 && self.number < 0x1000
    }

    open spec fn enc(self) -> Seq<u8> {
        seq![(self.reserved << 4) | ((self.number >> 8) as u8), self.number as u8]
    }
}

impl TrackNumber {
    pub const FRN_48: u8 = 0b1_0000;

    /// Bytes this item occupies when decoded at `pos`, or a negative
    /// length when it cannot be decoded there.
    pub open spec fn spec_len(b: Seq<u8>, pos: int, end: int) -> int {
        if pos + 2 <= end {
            2
        } else {
            -1
        }
    }

    pub fn decode(b: &[u8], pos: usize, end: usize) -> (r: Result<
        (Self, usize),
        AsterixError,
    >)
        requires
            pos <= end <= b@.len(),
        ensures
            r matches Ok((t, next)) ==> t.wf() && next == pos + 2 && t.enc() == b@.subrange(
                pos as int,
                next as int,
            ),
            r is Ok <==> pos + 2 <= end,
            r matches Err(e) ==> e == AsterixError::Underflow,
    {
        if end - pos < 2 {
            return Err(AsterixError::Underflow);
        }
        let (b0, b1) = (b[pos], b[pos + 1]);
        proof {
            lemma_split_4_12(b0, b1);
        }
        let t = TrackNumber {
            reserved: b0 >> 4,
            number: (((b0 & 0xf) as u16) << 8) | (b1 as u16),
        };
        proof {
            assert(t.enc() =~= b@.subrange(pos as int, pos + 2));
        }
        Ok((t, pos + 2))
    }

    pub fn encode(&self, out: &mut Vec<u8>)
        requires
            self.wf(),
        ensures
            final(out)@ == old(out)@ + self.enc(),
    {
        out.push((self.reserved << 4) | ((self.number >> 8) as u8));
        out.push(self.number as u8);
        proof {
            assert(out@ =~= old(out)@ + self.enc());
        }
    }
}

/// Confidence level for each bit of a Mode-3/A reply.
///
/// Data Item I048/080.
#[derive(Debug, Clone, PartialEq)]
pub struct Mode3ACodeConfidenceIndicator {
    pub reserved: u8,
    pub confidence: u16,
}

impl WireItem for Mode3ACodeConfidenceIndicator {
    open spec fn wf(self) -> bool {
        self.reserved <= 15 && self.confidence < 0x1000
    }

    open spec fn enc(self) -> Seq<u8> {
        seq![(self.reserved << 4) | ((self.confidence >> 8) as u8), self.confidence as u8]
    }
}

impl Mode3ACodeConfidenceIndicator {
    pub const FRN_48: u8 = 0b10_0000;

    /// Bytes this item occupies when decoded at `pos`, or a negative
    /// length when it cannot be decoded there.
    pub open spec fn spec_len(b: Seq<u8>, pos: int, end: int) -> int {
        if pos + 2 <= end {
            2
        } else {
            -1
        }
    }

    pub fn decode(b: &[u8], pos: usize, end: usize) -> (r: Result<
        (Self, usize),
        AsterixError,
    >)
        requires
            pos <= end <= b@.len(),
        ensures
            r matches Ok((t, next)) ==> t.wf() && next == pos + 2 && t.enc() == b@.subrange(
                pos as int,
                next as int,
            ),
            r is Ok <==> pos + 2 <= end,
            r matches Err(e) ==> e == AsterixError::Underflow,
    {
        if end - pos < 2 {
            return Err(AsterixError::Underflow);
        }
        let (b0, b1) = (b[pos], b[pos + 1]);
        proof {
            lemma_split_4_12(b0, b1);
        }
        let t = Mode3ACodeConfidenceIndicator {
            reserved: b0 >> 4,
            confidence: (((b0 & 0xf) as u16) << 8) | (b1 as u16),
        };
        proof {
            assert(t.enc() =~= b@.subrange(pos as int, pos + 2));
        }
        Ok((t, pos + 2))
    }

    pub fn encode(&self, out: &mut Vec<u8>)
        requires
            self.wf(),
        ensures
            final(out)@ == old(out)@ + self.enc(),
    {
        out.push((self.reserved << 4) | ((self.confidence >> 8) as u8));
        out.push(self.confidence as u8);
        proof {
            assert(out@ =~= old(out)@ + self.enc());
        }
    }
}

/// An octet carrying two one-bit flags, a two-bit spare and the top of a
/// 12-bit field splits into those parts and reassembles from them.
proof fn lemma_split_1_1_2_12(b0: u8, b1: u8)
    by (bit_vector)
    ensures
        (b0 >> 7) & 1 <= 1,
        (b0 >> 6) & 1 <= 1,
        (b0 >> 4) & 3 <= 3,
        ((((b0 & 0xf) as u16) << 8) | (b1 as u16)) < 0x1000,
        ((((b0 >> 7) & 1) << 7) | (((b0 >> 6) & 1) << 6) | (((b0 >> 4) & 3) << 4) | ((((((b0 & 0xf)
            as u16) << 8) | (b1 as u16)) >> 8) as u8)) == b0,
        ((((b0 & 0xf) as u16) << 8) | (b1 as u16)) as u8 == b1,
{
}

/// Mode-C height in Gray notation together with the confidence level for
/// each reply bit.
///
/// Data Item I048/100.
#[derive(Debug, Clone, PartialEq)]
pub struct ModeCCodeAndConfidenceIndicator {
    pub v: V,
    pub g: G,
    pub reserved0: u8,
    pub mode_c_gray_notation: u16,
    pub reserved1: u8,
    pub confidence: u16,
}

impl WireItem for ModeCCodeAndConfidenceIndicator {
    open spec fn wf(self) -> bool {
        self.reserved0 <= 3 && self.mode_c_gray_notation < 0x1000 && self.reserved1 <= 15
            && self.confidence < 0x1000
    }

    open spec fn enc(self) -> Seq<u8> {
        seq![
            (self.v.as_bits() << 7) | (self.g.as_bits() << 6) | (self.reserved0 << 4) | ((
            self.mode_c_gray_notation >> 8) as u8),
            self.mode_c_gray_notation as u8,
            (self.reserved1 << 4) | ((self.confidence >> 8) as u8),
            self.confidence as u8,
        ]
    }
}

impl ModeCCodeAndConfidenceIndicator {
    pub const FRN_48: u8 = 0b1_0000;

    /// Bytes this item occupies when decoded at `pos`, or a negative
    /// length when it cannot be decoded there.
    pub open spec fn spec_len(b: Seq<u8>, pos: int, end: int) -> int {
        if pos + 4 <= end {
            4
        } else {
            -1
        }
    }

    pub fn decode(b: &[u8], pos: usize, end: usize) -> (r: Result<
        (Self, usize),
        AsterixError,
    >)
        requires
            pos <= end <= b@.len(),
        ensures
            r matches Ok((t, next)) ==> t.wf() && next == pos + 4 && t.enc() == b@.subrange(
                pos as int,
                next as int,
            ),
            r is Ok <==> pos + 4 <= end,
            r matches Err(e) ==> e == AsterixError::Underflow,
    {
        if end - pos < 4 {
            return Err(AsterixError::Underflow);
        }
        let (b0, b1, b2, b3) = (b[pos], b[pos + 1], b[pos + 2], b[pos + 3]);
        proof {
            lemma_split_1_1_2_12(b0, b1);
            lemma_split_4_12(b2, b3);
        }
        let t = ModeCCodeAndConfidenceIndicator {
            v: V::from_bits((b0 >> 7) & 1),
            g: G::from_bits((b0 >> 6) & 1),
            reserved0: (b0 >> 4) & 3,
            mode_c_gray_notation: (((b0 & 0xf) as u16) << 8) | (b1 as u16),
            reserved1: b2 >> 4,
            confidence: (((b2 & 0xf) as u16) << 8) | (b3 as u16),
        };
        proof {
            assert(t.enc() =~= b@.subrange(pos as int, pos + 4));
        }
        Ok((t, pos + 4))
    }

    pub fn encode(&self, out: &mut Vec<u8>)
        requires
            self.wf(),
        ensures
            final(out)@ == old(out)@ + self.enc(),
    {
        out.push(
            (self.v.to_bits() << 7) | (self.g.to_bits() << 6) | (self.reserved0 << 4) | ((
            self.mode_c_gray_notation >> 8) as u8),
        );
        out.push(self.mode_c_gray_notation as u8);
        out.push((self.reserved1 << 4) | ((self.confidence >> 8) as u8));
        out.push(self.confidence as u8);
        proof {
            assert(out@ =~= old(out)@ + self.enc());
        }
    }
}

/// An octet carrying a two-bit spare and the top of a 14-bit field splits
/// into those parts and reassembles from them.
proof fn lemma_split_2_14(b0: u8, b1: u8)
    by (bit_vector)
    ensures
        (b0 >> 6) & 3 <= 3,
        ((((b0 & 0x3f) as u16) << 8) | (b1 as u16)) < 0x4000,
        ((((b0 >> 6) & 3) << 6) | ((((((b0 & 0x3f) as u16) << 8) | (b1 as u16)) >> 8) as u8))
            == b0,
        ((((b0 & 0x3f) as u16) << 8) | (b1 as u16)) as u8 == b1,
{
}

/// Height of a target as measured by a 3D radar, above mean sea level.
///
/// Data Item I048/110. The raw field is 14-bit two's complement in units
/// of 25 ft.
#[derive(Debug, Clone, PartialEq)]
pub struct HeightMeasuredBy3dRadar {
    pub reserved: u8,
    /// Raw 14-bit two's complement height in units of 25 ft.
    pub height: u16,
}

impl WireItem for HeightMeasuredBy3dRadar {
    open spec fn wf(self) -> bool {
        self.reserved <= 3 && self.height < 0x4000
    }

    open spec fn enc(self) -> Seq<u8> {
        seq![(self.reserved << 6) | ((self.height >> 8) as u8), self.height as u8]
    }
}

impl HeightMeasuredBy3dRadar {
    pub const FRN_48: u8 = 0b1000;

    /// The signed height in feet: the raw value, sign-extended from 14
    /// bits, times 25.
    pub fn feet(&self) -> (r: i32)
        requires
            self.wf(),
        ensures
            self.height < 0x2000 ==> r == self.height * 25,
            self.height >= 0x2000 ==> r == (self.height - 0x4000) * 25,
    {
        if self.height < 0x2000 {
            (self.height as i32) * 25
        } else {
            ((self.height as i32) - 0x4000) * 25
        }
    }

    /// Bytes this item occupies when decoded at `pos`, or a negative
    /// length when it cannot be decoded there.
    pub open spec fn spec_len(b: Seq<u8>, pos: int, end: int) -> int {
        if pos + 2 <= end {
            2
        } else {
            -1
        }
    }

    pub fn decode(b: &[u8], pos: usize, end: usize) -> (r: Result<
        (Self, usize),
        AsterixError,
    >)
        requires
            pos <= end <= b@.len(),
        ensures
            r matches Ok((t, next)) ==> t.wf() && next == pos + 2 && t.enc() == b@.subrange(
                pos as int,
                next as int,
            ),
            r is Ok <==> pos + 2 <= end,
            r matches Err(e) ==> e == AsterixError::Underflow,
    {
        if end - pos < 2 {
            return Err(AsterixError::Underflow);
        }
        let (b0, b1) = (b[pos], b[pos + 1]);
        proof {
            lemma_split_2_14(b0, b1);
        }
        let t = HeightMeasuredBy3dRadar {
            reserved: (b0 >> 6) & 3,
            height: (((b0 & 0x3f) as u16) << 8) | (b1 as u16),
        };
        proof {
            assert(t.enc() =~= b@.subrange(pos as int, pos + 2));
        }
        Ok((t, pos + 2))
    }

    pub fn encode(&self, out: &mut Vec<u8>)
        requires
            self.wf(),
        ensures
            final(out)@ == old(out)@ + self.enc(),
    {
        out.push((self.reserved << 6) | ((self.height >> 8) as u8));
        out.push(self.height as u8);
        proof {
            assert(out@ =~= old(out)@ + self.enc());
        }
    }
}

/// An octet carrying three one-bit flags and a five-bit field splits into
/// those parts and reassembles from them.
proof fn lemma_split_1_1_1_5(b0: u8)
    by (bit_vector)
    ensures
        (b0 >> 7) & 1 <= 1,
        (b0 >> 6) & 1 <= 1,
        (b0 >> 5) & 1 <= 1,
        b0 & 0x1f <= 31,
        ((((b0 >> 7) & 1) << 7) | (((b0 >> 6) & 1) << 6) | (((b0 >> 5) & 1) << 5) | (b0 & 0x1f))
            == b0,
{
}

/// Reply to Mode-1 interrogation, in octal representation.
///
/// Data Item I048/055.
#[derive(Debug, Clone, PartialEq)]
pub struct Mode1CodeOctalRepresentation {
    pub v: V,
    pub g: G,
    pub l: L,
    pub data: u8,
}

impl WireItem for Mode1CodeOctalRepresentation {
    open spec fn wf(self) -> bool {
        self.data <= 31
    }

    open spec fn enc(self) -> Seq<u8> {
        seq![
            (self.v.as_bits() << 7) | (self.g.as_bits() << 6) | (self.l.as_bits() << 5)
                | self.data,
        ]
    }
}

impl Mode1CodeOctalRepresentation {
    pub const FRN_48: u8 = 0b100_0000;

    /// Bytes this item occupies when decoded at `pos`, or a negative
    /// length when it cannot be decoded there.
    pub open spec fn spec_len(b: Seq<u8>, pos: int, end: int) -> int {
        if pos + 1 <= end {
            1
        } else {
            -1
        }
    }

    pub fn decode(b: &[u8], pos: usize, end: usize) -> (r: Result<
        (Self, usize),
        AsterixError,
    >)
        requires
            pos <= end <= b@.len(),
        ensures
            r matches Ok((t, next)) ==> t.wf() && next == pos + 1 && t.enc() == b@.subrange(
                pos as int,
                next as int,
            ),
            r is Ok <==> pos + 1 <= end,
            r matches Err(e) ==> e == AsterixError::Underflow,
    {
        if end - pos < 1 {
            return Err(AsterixError::Underflow);
        }
        let b0 = b[pos];
        proof {
            lemma_split_1_1_1_5(b0);
        }
        let t = Mode1CodeOctalRepresentation {
            v: V::from_bits((b0 >> 7) & 1),
            g: G::from_bits((b0 >> 6) & 1),
            l: L::from_bits((b0 >> 5) & 1),
            data: b0 & 0x1f,
        };
        proof {
            assert(t.enc() =~= b@.subrange(pos as int, pos + 1));
        }
        Ok((t, pos + 1))
    }

    pub fn encode(&self, out: &mut Vec<u8>)
        requires
            self.wf(),
        ensures
            final(out)@ == old(out)@ + self.enc(),
    {
        out.push(
            (self.v.to_bits() << 7) | (self.g.to_bits() << 6) | (self.l.to_bits() << 5)
                | self.data,
        );
        proof {
            assert(out@ =~= old(out)@ + self.enc());
        }
    }
}

/// Reply to Mode-2 interrogation, in octal representation.
///
/// Data Item I048/050.
#[derive(Debug, Clone, PartialEq)]
pub struct Mode2CodeOctalRepresentation {
    pub v: V,
    pub g: G,
    pub l: L,
    pub spare: u8,
    pub data: u16,
}

impl WireItem for Mode2CodeOctalRepresentation {
    open spec fn wf(self) -> bool {
        self.spare <= 1 && self.data < 0x1000
    }

    open spec fn enc(self) -> Seq<u8> {
        seq![
            (self.v.as_bits() << 7) | (self.g.as_bits() << 6) | (self.l.as_bits() << 5) | (
            self.spare << 4) | ((self.data >> 8) as u8),
            self.data as u8,
        ]
    }
}

impl Mode2CodeOctalRepresentation {
    pub const FRN_48: u8 = 0b10_0000;

    /// Bytes this item occupies when decoded at `pos`, or a negative
    /// length when it cannot be decoded there.
    pub open spec fn spec_len(b: Seq<u8>, pos: int, end: int) -> int {
        if pos + 2 <= end {
            2
        } else {
            -1
        }
    }

    pub fn decode(b: &[u8], pos: usize, end: usize) -> (r: Result<
        (Self, usize),
        AsterixError,
    >)
        requires
            pos <= end <= b@.len(),
        ensures
            r matches Ok((t, next)) ==> t.wf() && next == pos + 2 && t.enc() == b@.subrange(
                pos as int,
                next as int,
            ),
            r is Ok <==> pos + 2 <= end,
            r matches Err(e) ==> e == AsterixError::Underflow,
    {
        if end - pos < 2 {
            return Err(AsterixError::Underflow);
        }
        let (b0, b1) = (b[pos], b[pos + 1]);
        proof {
            lemma_split_1_1_1_1_12(b0, b1);
        }
        let t = Mode2CodeOctalRepresentation {
            v: V::from_bits((b0 >> 7) & 1),
            g: G::from_bits((b0 >> 6) & 1),
            l: L::from_bits((b0 >> 5) & 1),
            spare: (b0 >> 4) & 1,
            data: (((b0 & 0xf) as u16) << 8) | (b1 as u16),
        };
        proof {
            assert(t.enc() =~= b@.subrange(pos as int, pos + 2));
        }
        Ok((t, pos + 2))
    }

    pub fn encode(&self, out: &mut Vec<u8>)
        requires
            self.wf(),
        ensures
            final(out)@ == old(out)@ + self.enc(),
    {
        out.push(
            (self.v.to_bits() << 7) | (self.g.to_bits() << 6) | (self.l.to_bits() << 5) | (
            self.spare << 4) | ((self.data >> 8) as u8),
        );
        out.push(self.data as u8);
        proof {
            assert(out@ =~= old(out)@ + self.enc());
        }
    }
}

/// An octet carrying a three-bit field and a five-bit field splits into
/// those parts and reassembles from them.
proof fn lemma_split_3_5(b0: u8)
    by (bit_vector)
    ensures
        (b0 >> 5) <= 7,
        b0 & 0x1f <= 31,
        (((b0 >> 5) << 5) | (b0 & 0x1f)) == b0,
{
}

/// Confidence level for each bit of a Mode-1 reply.
///
/// Data Item I048/065.
#[derive(Debug, Clone, PartialEq)]
pub struct Mode1CodeConfidenceIndicator {
    pub spare: u8,
    pub data: u8,
}

impl WireItem for Mode1CodeConfidenceIndicator {
    open spec fn wf(self) -> bool {
        self.spare <= 7 && self.data <= 31
    }

    open spec fn enc(self) -> Seq<u8> {
        seq![(self.spare << 5) | self.data]
    }
}

impl Mode1CodeConfidenceIndicator {
    pub const FRN_48: u8 = 0b1_0000;

    /// Bytes this item occupies when decoded at `pos`, or a negative
    /// length when it cannot be decoded there.
    pub open spec fn spec_len(b: Seq<u8>, pos: int, end: int) -> int {
        if pos + 1 <= end {
            1
        } else {
            -1
        }
    }

    pub fn decode(b: &[u8], pos: usize, end: usize) -> (r: Result<
        (Self, usize),
        AsterixError,
    >)
        requires
            pos <= end <= b@.len(),
        ensures
            r matches Ok((t, next)) ==> t.wf() && next == pos + 1 && t.enc() == b@.subrange(
                pos as int,
                next as int,
            ),
            r is Ok <==> pos + 1 <= end,
            r matches Err(e) ==> e == AsterixError::Underflow,
    {
        if end - pos < 1 {
            return Err(AsterixError::Underflow);
        }
        let b0 = b[pos];
        proof {
            lemma_split_3_5(b0);
        }
        let t = Mode1CodeConfidenceIndicator { spare: b0 >> 5, data: b0 & 0x1f };
        proof {
            assert(t.enc() =~= b@.subrange(pos as int, pos + 1));
        }
        Ok((t, pos + 1))
    }

    pub fn encode(&self, out: &mut Vec<u8>)
        requires
            self.wf(),
        ensures
            final(out)@ == old(out)@ + self.enc(),
    {
        out.push((self.spare << 5) | self.data);
        proof {
            assert(out@ =~= old(out)@ + self.enc());
        }
    }
}

/// Confidence level for each bit of a Mode-2 reply.
///
/// Data Item I048/060.
#[derive(Debug, Clone, PartialEq)]
pub struct Mode2CodeConfidenceIndicator {
    pub spare: u8,
    pub data: u16,
}

impl WireItem for Mode2CodeConfidenceIndicator {
    open spec fn wf(self) -> bool {
        self.spare <= 15 && self.data < 0x1000
    }

    open spec fn enc(self) -> Seq<u8> {
        seq![(self.spare << 4) | ((self.data >> 8) as u8), self.data as u8]
    }
}

impl Mode2CodeConfidenceIndicator {
    pub const FRN_48: u8 = 0b1000;

    /// Bytes this item occupies when decoded at `pos`, or a negative
    /// length when it cannot be decoded there.
    pub open spec fn spec_len(b: Seq<u8>, pos: int, end: int) -> int {
        if pos + 2 <= end {
            2
        } else {
            -1
        }
    }

    pub fn decode(b: &[u8], pos: usize, end: usize) -> (r: Result<
        (Self, usize),
        AsterixError,
    >)
        requires
            pos <= end <= b@.len(),
        ensures
            r matches Ok((t, next)) ==> t.wf() && next == pos + 2 && t.enc() == b@.subrange(
                pos as int,
                next as int,
            ),
            r is Ok <==> pos + 2 <= end,
            r matches Err(e) ==> e == AsterixError::Underflow,
    {
        if end - pos < 2 {
            return Err(AsterixError::Underflow);
        }
        let (b0, b1) = (b[pos], b[pos + 1]);
        proof {
            lemma_split_4_12(b0, b1);
        }
        let t = Mode2CodeConfidenceIndicator {
            spare: b0 >> 4,
            data: (((b0 & 0xf) as u16) << 8) | (b1 as u16),
        };
        proof {
            assert(t.enc() =~= b@.subrange(pos as int, pos + 2));
        }
        Ok((t, pos + 2))
    }

    pub fn encode(&self, out: &mut Vec<u8>)
        requires
            self.wf(),
        ensures
            final(out)@ == old(out)@ + self.enc(),
    {
        out.push((self.spare << 4) | ((self.data >> 8) as u8));
        out.push(self.data as u8);
        proof {
            assert(out@ =~= old(out)@ + self.enc());
        }
    }
}

/// The two octets of the communications capability item split into their
/// fields and reassemble from them.
proof fn lemma_split_commcap(b0: u8, b1: u8)
    by (bit_vector)
    ensures
        (b0 >> 5) <= 7,
        (b0 >> 2) & 7 <= 7,
        (b0 >> 1) & 1 <= 1,
        b0 & 1 <= 1,
        (b1 >> 7) & 1 <= 1,
        (b1 >> 6) & 1 <= 1,
        (b1 >> 5) & 1 <= 1,
        (b1 >> 4) & 1 <= 1,
        b1 & 0xf <= 15,
        (((b0 >> 5) << 5) | (((b0 >> 2) & 7) << 2) | (((b0 >> 1) & 1) << 1) | (b0 & 1)) == b0,
        ((((b1 >> 7) & 1) << 7) | (((b1 >> 6) & 1) << 6) | (((b1 >> 5) & 1) << 5) | (((b1 >> 4) & 1)
            << 4) | (b1 & 0xf)) == b1,
{
}

/// Communications capability of the transponder, capability of the onboard
/// ACAS equipment and flight status.
///
/// Data Item I048/230.
#[derive(Debug, Clone, PartialEq)]
pub struct CommunicationsCapabilityFlightStatus {
    pub com: COM,
    pub stat: STAT,
    pub si: SI,
    pub reserved: u8,
    pub mssc: MSSC,
    pub arc: ARC,
    pub aic: AIC,
    pub b1a: u8,
    pub b1b: u8,
}

impl WireItem for CommunicationsCapabilityFlightStatus {
    open spec fn wf(self) -> bool {
        self.com.wf() && self.reserved <= 1 && self.b1a <= 1 && self.b1b <= 15
    }

    open spec fn enc(self) -> Seq<u8> {
        seq![
            (self.com.as_bits() << 5) | (self.stat.as_bits() << 2) | (self.si.as_bits() << 1)
                | self.reserved,
            (self.mssc.as_bits() << 7) | (self.arc.as_bits() << 6) | (self.aic.as_bits() << 5) | (
            self.b1a << 4) | self.b1b,
        ]
    }
}

impl CommunicationsCapabilityFlightStatus {
    pub const FRN_48: u8 = 0b10;

    /// Bytes this item occupies when decoded at `pos`, or a negative
    /// length when it cannot be decoded there.
    pub open spec fn spec_len(b: Seq<u8>, pos: int, end: int) -> int {
        if pos + 2 <= end {
            2
        } else {
            -1
        }
    }

    pub fn decode(b: &[u8], pos: usize, end: usize) -> (r: Result<
        (Self, usize),
        AsterixError,
    >)
        requires
            pos <= end <= b@.len(),
        ensures
            r matches Ok((t, next)) ==> t.wf() && next == pos + 2 && t.enc() == b@.subrange(
                pos as int,
                next as int,
            ),
            r is Ok <==> pos + 2 <= end,
            r matches Err(e) ==> e == AsterixError::Underflow,
    {
        if end - pos < 2 {
            return Err(AsterixError::Underflow);
        }
        let (b0, b1) = (b[pos], b[pos + 1]);
        proof {
            lemma_split_commcap(b0, b1);
        }
        let t = CommunicationsCapabilityFlightStatus {
            com: COM::from_bits(b0 >> 5),
            stat: STAT::from_bits((b0 >> 2) & 7),
            si: SI::from_bits((b0 >> 1) & 1),
            reserved: b0 & 1,
            mssc: MSSC::from_bits((b1 >> 7) & 1),
            arc: ARC::from_bits((b1 >> 6) & 1),
            aic: AIC::from_bits((b1 >> 5) & 1),
            b1a: (b1 >> 4) & 1,
            b1b: b1 & 0xf,
        };
        proof {
            assert(t.enc() =~= b@.subrange(pos as int, pos + 2));
        }
        Ok((t, pos + 2))
    }

    pub fn encode(&self, out: &mut Vec<u8>)
        requires
            self.wf(),
        ensures
            final(out)@ == old(out)@ + self.enc(),
    {
        out.push(
            (self.com.to_bits() << 5) | (self.stat.to_bits() << 2) | (self.si.to_bits() << 1)
                | self.reserved,
        );
        out.push(
            (self.mssc.to_bits() << 7) | (self.arc.to_bits() << 6) | (self.aic.to_bits() << 5) | (
            self.b1a << 4) | self.b1b,
        );
        proof {
            assert(out@ =~= old(out)@ + self.enc());
        }
    }
}

/// Three octets carry four six-bit character codes; the codes split out of
/// the octets and reassemble into them.
proof fn lemma_split_ia5(b0: u8, b1: u8, b2: u8)
    by (bit_vector)
    ensures
        (b0 >> 2) < 64,
        (((b0 & 3) << 4) | (b1 >> 4)) < 64,
        (((b1 & 0xf) << 2) | (b2 >> 6)) < 64,
        (b2 & 0x3f) < 64,
        (((b0 >> 2) << 2) | ((((b0 & 3) << 4) | (b1 >> 4)) >> 4)) == b0,
        (((((b0 & 3) << 4) | (b1 >> 4)) << 4) | (((((b1 & 0xf) << 2) | (b2 >> 6))) >> 2)) == b1,
        (((((b1 & 0xf) << 2) | (b2 >> 6)) << 6) | (b2 & 0x3f)) == b2,
{
}

/// Aircraft identification obtained from a Mode S transponder: eight
/// six-bit IA5 character codes packed into six octets. The eighth code is
/// kept verbatim so that re-encoding is exact; on the wire it is normally
/// zero padding.
///
/// Data Item I048/240.
#[derive(Debug, Clone, PartialEq)]
pub struct AircraftIdentification {
    /// The eight six-bit IA5 codes as read from the wire.
    pub codes: [u8; 8],
}

impl WireItem for AircraftIdentification {
    open spec fn wf(self) -> bool {
        forall|i: int| 0 <= i < 8 ==> #[trigger] self.codes@[i] < 64
    }

    open spec fn enc(self) -> Seq<u8> {
        seq![
            (self.codes@[0] << 2) | (self.codes@[1] >> 4),
            (self.codes@[1] << 4) | (self.codes@[2] >> 2),
            (self.codes@[2] << 6) | self.codes@[3],
            (self.codes@[4] << 2) | (self.codes@[5] >> 4),
            (self.codes@[5] << 4) | (self.codes@[6] >> 2),
            (self.codes@[6] << 6) | self.codes@[7],
        ]
    }
}

impl AircraftIdentification {
    pub const FRN_48: u8 = 0b100_0000;

    /// Builds an identification from seven ASCII characters, translating
    /// each to its IA5 code (`?` outside the alphabet) and padding the
    /// eighth code with zero as the wire format prescribes.
    pub fn from_ascii(chars: &[u8; 7]) -> (r: Self)
        ensures
            r.wf(),
            forall|i: int| 0 <= i < 7 ==> r.codes@[i] == crate::ia5::spec_ascii_to_ia5(chars@[i]),
            r.codes@[7] == 0,
    {
        let codes: [u8; 8] = [
            crate::ia5::ascii_to_ia5(chars[0]),
            crate::ia5::ascii_to_ia5(chars[1]),
            crate::ia5::ascii_to_ia5(chars[2]),
            crate::ia5::ascii_to_ia5(chars[3]),
            crate::ia5::ascii_to_ia5(chars[4]),
            crate::ia5::ascii_to_ia5(chars[5]),
            crate::ia5::ascii_to_ia5(chars[6]),
            0,
        ];
        AircraftIdentification { codes }
    }

    /// The seven identification characters translated to ASCII, with `?`
    /// substituted for any code outside the IA5 alphabet.
    pub fn identification(&self) -> (r: Vec<u8>)
        ensures
            r@.len() == 7,
            forall|i: int| 0 <= i < 7 ==> r@[i] == spec_ia5_to_ascii(self.codes@[i]),
    {
        let mut r: Vec<u8> = Vec::new();
        r.push(ia5_to_ascii(self.codes[0]));
        r.push(ia5_to_ascii(self.codes[1]));
        r.push(ia5_to_ascii(self.codes[2]));
        r.push(ia5_to_ascii(self.codes[3]));
        r.push(ia5_to_ascii(self.codes[4]));
        r.push(ia5_to_ascii(self.codes[5]));
        r.push(ia5_to_ascii(self.codes[6]));
        r
    }

    /// Bytes this item occupies when decoded at `pos`, or a negative
    /// length when it cannot be decoded there.
    pub open spec fn spec_len(b: Seq<u8>, pos: int, end: int) -> int {
        if pos + 6 <= end {
            6
        } else {
            -1
        }
    }

    pub fn decode(b: &[u8], pos: usize, end: usize) -> (r: Result<
        (Self, usize),
        AsterixError,
    >)
        requires
            pos <= end <= b@.len(),
        ensures
            r matches Ok((t, next)) ==> t.wf() && next == pos + 6 && t.enc() == b@.subrange(
                pos as int,
                next as int,
            ),
            r is Ok <==> pos + 6 <= end,
            r matches Err(e) ==> e == AsterixError::Underflow,
    {
        if end - pos < 6 {
            return Err(AsterixError::Underflow);
        }
        let (b0, b1, b2) = (b[pos], b[pos + 1], b[pos + 2]);
        let (b3, b4, b5) = (b[pos + 3], b[pos + 4], b[pos + 5]);
        proof {
            lemma_split_ia5(b0, b1, b2);
            lemma_split_ia5(b3, b4, b5);
        }
        let codes: [u8; 8] = [
            b0 >> 2,
            ((b0 & 3) << 4) | (b1 >> 4),
            ((b1 & 0xf) << 2) | (b2 >> 6),
            b2 & 0x3f,
            b3 >> 2,
            ((b3 & 3) << 4) | (b4 >> 4),
            ((b4 & 0xf) << 2) | (b5 >> 6),
            b5 & 0x3f,
        ];
        let t = AircraftIdentification { codes };
        proof {
            assert(t.enc() =~= b@.subrange(pos as int, pos + 6));
        }
        Ok((t, pos + 6))
    }

    pub fn encode(&self, out: &mut Vec<u8>)
        requires
            self.wf(),
        ensures
            final(out)@ == old(out)@ + self.enc(),
    {
        out.push((self.codes[0] << 2) | (self.codes[1] >> 4));
        out.push((self.codes[1] << 4) | (self.codes[2] >> 2));
        out.push((self.codes[2] << 6) | self.codes[3]);
        out.push((self.codes[4] << 2) | (self.codes[5] >> 4));
        out.push((self.codes[5] << 4) | (self.codes[6] >> 2));
        out.push((self.codes[6] << 6) | self.codes[7]);
        proof {
            assert(out@ =~= old(out)@ + self.enc());
        }
    }
}

/// One seven-byte Mode S Comm-B message.
#[derive(Debug, Clone, PartialEq)]
pub struct MBData {
    pub data: Vec<u8>,
}

impl WireItem for MBData {
    open spec fn wf(self) -> bool {
        self.data@.len() == 7
    }

    open spec fn enc(self) -> Seq<u8> {
        self.data@
    }
}

impl MBData {
    /// Bytes this item occupies when decoded at `pos`, or a negative
    /// length when it cannot be decoded there.
    pub open spec fn spec_len(b: Seq<u8>, pos: int, end: int) -> int {
        if pos + 7 <= end {
            7
        } else {
            -1
        }
    }

    pub fn decode(b: &[u8], pos: usize, end: usize) -> (r: Result<
        (Self, usize),
        AsterixError,
    >)
        requires
            pos <= end <= b@.len(),
        ensures
            r matches Ok((t, next)) ==> t.wf() && next == pos + 7 && t.enc() == b@.subrange(
                pos as int,
                next as int,
            ),
            r is Ok <==> pos + 7 <= end,
            r matches Err(e) ==> e == AsterixError::Underflow,
    {
        if end - pos < 7 {
            return Err(AsterixError::Underflow);
        }
        let mut data: Vec<u8> = Vec::new();
        data.push(b[pos]);
        data.push(b[pos + 1]);
        data.push(b[pos + 2]);
        data.push(b[pos + 3]);
        data.push(b[pos + 4]);
        data.push(b[pos + 5]);
        data.push(b[pos + 6]);
        let t = MBData { data };
        proof {
            assert(t.enc() =~= b@.subrange(pos as int, pos + 7));
        }
        Ok((t, pos + 7))
    }

    pub fn encode(&self, out: &mut Vec<u8>)
        requires
            self.wf(),
        ensures
            final(out)@ == old(out)@ + self.enc(),
    {
        out.push(self.data[0]);
        out.push(self.data[1]);
        out.push(self.data[2]);
        out.push(self.data[3]);
        out.push(self.data[4]);
        out.push(self.data[5]);
        out.push(self.data[6]);
        proof {
            assert(out@ =~= old(out)@ + self.enc());
        }
    }
}

/// An octet carrying two four-bit fields splits into them and reassembles
/// from them.
proof fn lemma_split_4_4(b0: u8)
    by (bit_vector)
    ensures
        (b0 >> 4) <= 15,
        b0 & 0xf <= 15,
        (((b0 >> 4) << 4) | (b0 & 0xf)) == b0,
{
}

/// Mode S Comm-B data as extracted from the aircraft transponder: a
/// repetition count, that many seven-byte messages, and the BDS register
/// pair.
///
/// Data Item I048/250. The count is authoritative on decode and derived
/// from the message list on encode.
#[derive(Debug, Clone, PartialEq)]
pub struct ModeSMBData {
    pub count: u8,
    pub mb_data: Vec<MBData>,
    pub bds1: u8,
    pub bds2: u8,
}

impl WireItem for ModeSMBData {
    open spec fn wf(self) -> bool {
        &&& self.count == self.mb_data@.len()
        &&& self.mb_data@.len() <= 255
        &&& crate::wire::items_wf(self.mb_data@)
        &&& self.bds1 <= 15
        &&& self.bds2 <= 15
    }

    open spec fn enc(self) -> Seq<u8> {
        seq![self.count] + crate::wire::items_enc(self.mb_data@) + seq![
            (self.bds1 << 4) | self.bds2,
        ]
    }
}

impl ModeSMBData {
    pub const FRN_48: u8 = 0b10_0000;

    /// Bytes this item occupies when decoded at `pos`, or a negative
    /// length when it cannot be decoded there.
    pub open spec fn spec_len(b: Seq<u8>, pos: int, end: int) -> int {
        if pos < end && pos + 2 + 7 * (b[pos] as int) <= end {
            2 + 7 * (b[pos] as int)
        } else {
            -1
        }
    }

    pub fn decode(b: &[u8], pos: usize, end: usize) -> (r: Result<
        (Self, usize),
        AsterixError,
    >)
        requires
            pos <= end <= b@.len(),
        ensures
            r matches Ok((t, next)) ==> t.wf() && pos < next <= end && t.enc() == b@.subrange(
                pos as int,
                next as int,
            ) && next == pos + 2 + 7 * (b@[pos as int] as int),
            r is Ok <==> Self::spec_len(b@, pos as int, end as int) >= 0,
            r matches Err(e) ==> e == AsterixError::Underflow,
    {
        if end - pos < 1 {
            return Err(AsterixError::Underflow);
        }
        let count = b[pos];
        let mut cur = pos + 1;
        let mut mb_data: Vec<MBData> = Vec::new();
        let mut i: usize = 0;
        while i < count as usize
            invariant
                pos + 1 <= cur <= end <= b@.len(),
                pos < end,
                count == b@[pos as int],
                i <= count,
                mb_data@.len() == i,
                cur == pos + 1 + 7 * i,
                crate::wire::items_wf(mb_data@),
                crate::wire::items_enc(mb_data@) == b@.subrange(pos + 1, cur as int),
            decreases count - i,
        {
            match MBData::decode(b, cur, end) {
                Ok((m, next)) => {
                    proof {
                        crate::wire::lemma_items_enc_push(mb_data@, m);
                        lemma_subrange_join(b@, pos + 1, cur as int, next as int);
                    }
                    mb_data.push(m);
                    cur = next;
                },
                Err(e) => {
                    proof {
                        assert(cur + 7 > end);
                        assert(pos + 2 + 7 * (count as int) >= cur + 7 + 1);
                    }
                    return Err(e);
                },
            }
            i += 1;
        }
        if cur >= end {
            return Err(AsterixError::Underflow);
        }
        let bds = b[cur];
        proof {
            lemma_split_4_4(bds);
        }
        let t = ModeSMBData { count, mb_data, bds1: bds >> 4, bds2: bds & 0xf };
        proof {
            lemma_subrange_join(b@, pos as int, pos + 1, cur as int);
            lemma_subrange_join(b@, pos as int, cur as int, cur + 1);
            assert(seq![count] =~= b@.subrange(pos as int, pos + 1));
            assert(seq![(t.bds1 << 4) | t.bds2] =~= b@.subrange(cur as int, cur + 1));
        }
        Ok((t, cur + 1))
    }

    pub fn encode(&self, out: &mut Vec<u8>)
        requires
            self.wf(),
        ensures
            final(out)@ == old(out)@ + self.enc(),
    {
        out.push(self.count);
        let n = self.mb_data.len();
        let mut i: usize = 0;
        while i < n
            invariant
                n == self.mb_data@.len(),
                i <= n,
                crate::wire::items_wf(self.mb_data@),
                out@ == old(out)@ + seq![self.count] + crate::wire::items_enc(
                    self.mb_data@.subrange(0, i as int),
                ),
            decreases n - i,
        {
            proof {
                crate::wire::lemma_items_enc_push(self.mb_data@.subrange(0, i as int), self.mb_data@[i as int]);
                assert(self.mb_data@.subrange(0, i + 1) =~= self.mb_data@.subrange(0, i as int).push(
                    self.mb_data@[i as int]));
            }
            self.mb_data[i].encode(out);
            i += 1;
        }
        out.push((self.bds1 << 4) | self.bds2);
        proof {
            assert(self.mb_data@.subrange(0, n as int) =~= self.mb_data@);
            assert(out@ =~= old(out)@ + self.enc());
        }
    }
}

/// An octet carrying a seven-bit code and the FX bit splits into them and
/// reassembles from them.
proof fn lemma_split_7_1(b0: u8)
    by (bit_vector)
    ensures
        (b0 >> 1) < 128,
        b0 & 1 <= 1,
        (((b0 >> 1) << 1) | (b0 & 1)) == b0,
{
}

/// One warning/error condition code together with its FX bit.
#[derive(Debug, Clone, Copy, PartialEq)]
pub struct CodeFx {
    pub code: CODE,
    pub fx: FX,
}

impl WireItem for CodeFx {
    open spec fn wf(self) -> bool {
        self.code.wf()
    }

    open spec fn enc(self) -> Seq<u8> {
        seq![(self.code.as_bits() << 1) | self.fx.as_bits()]
    }
}

impl CodeFx {
    /// Bytes this item occupies when decoded at `pos`, or a negative
    /// length when it cannot be decoded there.
    pub open spec fn spec_len(b: Seq<u8>, pos: int, end: int) -> int {
        if pos + 1 <= end {
            1
        } else {
            -1
        }
    }

    pub fn decode(b: &[u8], pos: usize, end: usize) -> (r: Result<
        (Self, usize),
        AsterixError,
    >)
        requires
            pos <= end <= b@.len(),
        ensures
            r matches Ok((t, next)) ==> t.wf() && next == pos + 1 && t.enc() == b@.subrange(
                pos as int,
                next as int,
            ),
            r is Ok <==> pos + 1 <= end,
            r matches Err(e) ==> e == AsterixError::Underflow,
    {
        if end - pos < 1 {
            return Err(AsterixError::Underflow);
        }
        let b0 = b[pos];
        proof {
            lemma_split_7_1(b0);
        }
        let t = CodeFx { code: CODE::from_bits(b0 >> 1), fx: FX::from_bits(b0 & 1) };
        proof {
            assert(t.enc() =~= b@.subrange(pos as int, pos + 1));
        }
        Ok((t, pos + 1))
    }

    pub fn encode(&self, out: &mut Vec<u8>)
        requires
            self.wf(),
        ensures
            final(out)@ == old(out)@ + self.enc(),
    {
        out.push((self.code.to_bits() << 1) | self.fx.to_bits());
        proof {
            assert(out@ =~= old(out)@ + self.enc());
        }
    }
}

/// Warning/error conditions and target classification: a chain of
/// seven-bit codes, each octet's FX bit announcing one more.
///
/// Data Item I048/030.
#[derive(Debug, Clone, PartialEq)]
pub struct WarningErrorConditionsTargetClass {
    pub codefxs: Vec<CodeFx>,
}

impl WireItem for WarningErrorConditionsTargetClass {
    open spec fn wf(self) -> bool {
        &&& self.codefxs@.len() >= 1
        &&& crate::wire::items_wf(self.codefxs@)
        &&& forall|i: int|
            0 <= i < self.codefxs@.len() - 1 ==> (#[trigger] self.codefxs@[i]).fx
                == FX::ExtensionIntoFirstExtent
        &&& self.codefxs@.last().fx == FX::EndOfDataItem
    }

    open spec fn enc(self) -> Seq<u8> {
        crate::wire::items_enc(self.codefxs@)
    }
}

impl WarningErrorConditionsTargetClass {
    pub const FRN_48: u8 = 0b100_0000;

    /// Bytes this item occupies when decoded at `pos`, or a negative
    /// length when it cannot be decoded there.
    pub open spec fn spec_len(b: Seq<u8>, pos: int, end: int) -> int {
        if crate::fspec::chain_ok(b, pos, end) {
            crate::fspec::chain_end(b, pos, end) + 1 - pos
        } else {
            -1
        }
    }

    pub fn decode(b: &[u8], pos: usize, end: usize) -> (r: Result<
        (Self, usize),
        AsterixError,
    >)
        requires
            pos <= end <= b@.len(),
        ensures
            r matches Ok((t, next)) ==> t.wf() && pos < next <= end && t.enc() == b@.subrange(
                pos as int,
                next as int,
            ),
            r is Ok <==> Self::spec_len(b@, pos as int, end as int) >= 0,
            r matches Ok((t, next)) ==> next == pos + Self::spec_len(b@, pos as int, end as int),
            r matches Err(e) ==> e == AsterixError::Underflow,
    {
        let mut codefxs: Vec<CodeFx> = Vec::new();
        let mut cur = pos;
        let mut done = false;
        while !done
            invariant
                pos <= cur <= end <= b@.len(),
                crate::wire::items_wf(codefxs@),
                crate::wire::items_enc(codefxs@) == b@.subrange(pos as int, cur as int),
                done ==> codefxs@.len() >= 1 && codefxs@.last().fx == FX::EndOfDataItem,
                done ==> crate::fspec::chain_end(b@, pos as int, end as int) == cur - 1,
                !done ==> crate::fspec::chain_end(b@, pos as int, end as int)
                    == crate::fspec::chain_end(b@, cur as int, end as int),
                forall|i: int|
                    0 <= i < codefxs@.len() - (if done { 1int } else { 0int }) ==> (
                    #[trigger] codefxs@[i]).fx == FX::ExtensionIntoFirstExtent,
            decreases end - cur + (if done { 0int } else { 1int }),
        {
            if cur >= end {
                proof {
                    assert(crate::fspec::chain_end(b@, cur as int, end as int) == end as int);
                }
                return Err(AsterixError::Underflow);
            }
            let b0 = b[cur];
            proof {
                lemma_split_7_1(b0);
                if b0 & 1 == 0 {
                    assert(crate::fspec::chain_end(b@, cur as int, end as int) == cur as int);
                } else {
                    assert(crate::fspec::chain_end(b@, cur as int, end as int)
                        == crate::fspec::chain_end(b@, cur + 1, end as int));
                }
            }
            let cfx = CodeFx { code: CODE::from_bits(b0 >> 1), fx: FX::from_bits(b0 & 1) };
            proof {
                crate::wire::lemma_items_enc_push(codefxs@, cfx);
                lemma_subrange_join(b@, pos as int, cur as int, cur + 1);
                assert(cfx.enc() =~= b@.subrange(cur as int, cur + 1));
            }
            if b0 & 1 == 0 {
                done = true;
            }
            codefxs.push(cfx);
            cur = cur + 1;
        }
        let t = WarningErrorConditionsTargetClass { codefxs };
        Ok((t, cur))
    }

    pub fn encode(&self, out: &mut Vec<u8>)
        requires
            self.wf(),
        ensures
            final(out)@ == old(out)@ + self.enc(),
    {
        let n = self.codefxs.len();
        let mut i: usize = 0;
        while i < n
            invariant
                n == self.codefxs@.len(),
                i <= n,
                crate::wire::items_wf(self.codefxs@),
                out@ == old(out)@ + crate::wire::items_enc(self.codefxs@.subrange(0, i as int)),
            decreases n - i,
        {
            proof {
                crate::wire::lemma_items_enc_push(
                    self.codefxs@.subrange(0, i as int),
                    self.codefxs@[i as int],
                );
                assert(self.codefxs@.subrange(0, i + 1) =~= self.codefxs@.subrange(0, i as int).push(
                    self.codefxs@[i as int]));
            }
            let cfx = self.codefxs[i];
            cfx.encode(out);
            i += 1;
        }
        proof {
            assert(self.codefxs@.subrange(0, n as int) =~= self.codefxs@);
        }
    }
}

/// The first octet of a calculated Doppler speed splits into its flag,
/// spare bits and the top of the ten-bit speed, and reassembles from them.
proof fn lemma_split_1_5_10(b0: u8, b1: u8)
    by (bit_vector)
    ensures
        (b0 >> 7) & 1 <= 1,
        (b0 >> 2) & 0x1f <= 31,
        ((((b0 & 3) as u16) << 8) | (b1 as u16)) < 0x400,
        ((((b0 >> 7) & 1) << 7) | (((b0 >> 2) & 0x1f) << 2) | ((((((b0 & 3) as u16) << 8) | (
        b1 as u16)) >> 8) as u8)) == b0,
        ((((b0 & 3) as u16) << 8) | (b1 as u16)) as u8 == b1,
{
}

/// Calculated Doppler speed of a target report.
///
/// Sub-field of `RadialDopplerSpeed`.
#[derive(Debug, Clone, PartialEq)]
pub struct CalculatedDopplerSpeed {
    pub d: D,
    pub spare: u8,
    /// Raw ten-bit Doppler speed.
    pub cal: u16,
}

impl WireItem for CalculatedDopplerSpeed {
    open spec fn wf(self) -> bool {
        self.spare <= 31 && self.cal < 0x400
    }

    open spec fn enc(self) -> Seq<u8> {
        seq![
            (self.d.as_bits() << 7) | (self.spare << 2) | ((self.cal >> 8) as u8),
            self.cal as u8,
        ]
    }
}

impl CalculatedDopplerSpeed {
    /// Bytes this item occupies when decoded at `pos`, or a negative
    /// length when it cannot be decoded there.
    pub open spec fn spec_len(b: Seq<u8>, pos: int, end: int) -> int {
        if pos + 2 <= end {
            2
        } else {
            -1
        }
    }

    pub fn decode(b: &[u8], pos: usize, end: usize) -> (r: Result<
        (Self, usize),
        AsterixError,
    >)
        requires
            pos <= end <= b@.len(),
        ensures
            r matches Ok((t, next)) ==> t.wf() && next == pos + 2 && t.enc() == b@.subrange(
                pos as int,
                next as int,
            ),
            r is Ok <==> pos + 2 <= end,
            r matches Err(e) ==> e == AsterixError::Underflow,
    {
        if end - pos < 2 {
            return Err(AsterixError::Underflow);
        }
        let (b0, b1) = (b[pos], b[pos + 1]);
        proof {
            lemma_split_1_5_10(b0, b1);
        }
        let t = CalculatedDopplerSpeed {
            d: D::from_bits((b0 >> 7) & 1),
            spare: (b0 >> 2) & 0x1f,
            cal: (((b0 & 3) as u16) << 8) | (b1 as u16),
        };
        proof {
            assert(t.enc() =~= b@.subrange(pos as int, pos + 2));
        }
        Ok((t, pos + 2))
    }

    pub fn encode(&self, out: &mut Vec<u8>)
        requires
            self.wf(),
        ensures
            final(out)@ == old(out)@ + self.enc(),
    {
        out.push((self.d.to_bits() << 7) | (self.spare << 2) | ((self.cal >> 8) as u8));
        out.push(self.cal as u8);
        proof {
            assert(out@ =~= old(out)@ + self.enc());
        }
    }
}

/// The leading octet of the radial Doppler speed item splits into its two
/// presence flags and spare bits, and reassembles from them.
proof fn lemma_split_1_1_6(b0: u8)
    by (bit_vector)
    ensures
        (b0 >> 7) & 1 <= 1,
        (b0 >> 6) & 1 <= 1,
        b0 & 0x3f <= 63,
        ((((b0 >> 7) & 1) << 7) | (((b0 >> 6) & 1) << 6) | (b0 & 0x3f)) == b0,
        ((b0 >> 7) & 1 == 1) <==> (b0 & 0x80 == 0x80),
        ((b0 >> 6) & 1 == 1) <==> (b0 & 0x40 == 0x40),
{
}

/// Information on the Doppler speed of the target report: a leading octet
/// flags which of the two sub-fields follow.
///
/// Data Item I048/120.
#[derive(Debug, Clone, PartialEq)]
pub struct RadialDopplerSpeed {
    pub cal: u8,
    pub rds: u8,
    pub spare: u8,
    pub calculated_doppler_speed: Option<CalculatedDopplerSpeed>,
    pub raw_doppler_speed: Option<RawDopplerSpeed>,
}

impl WireItem for RadialDopplerSpeed {
    open spec fn wf(self) -> bool {
        &&& self.cal <= 1
        &&& self.rds <= 1
        &&& self.spare <= 63
        &&& (self.calculated_doppler_speed is Some <==> self.cal == 1)
        &&& (self.raw_doppler_speed is Some <==> self.rds == 1)
        &&& opt_wf(self.calculated_doppler_speed)
        &&& opt_wf(self.raw_doppler_speed)
    }

    open spec fn enc(self) -> Seq<u8> {
        seq![(self.cal << 7) | (self.rds << 6) | self.spare] + opt_enc(
            self.calculated_doppler_speed,
        ) + opt_enc(self.raw_doppler_speed)
    }
}

impl RadialDopplerSpeed {
    pub const FRN_48: u8 = 0b100;

    /// Bytes this item occupies when decoded at `pos`, or a negative
    /// length when it cannot be decoded there.
    /// Bytes occupied by the sub-fields the leading octet announces.
    pub open spec fn body_len(head: u8) -> int {
        (if head & 0x80 == 0x80 {
            2int
        } else {
            0
        }) + (if head & 0x40 == 0x40 {
            7int
        } else {
            0
        })
    }

    pub open spec fn spec_len(b: Seq<u8>, pos: int, end: int) -> int {
        if pos < end && pos + 1 + Self::body_len(b[pos]) <= end {
            1 + Self::body_len(b[pos])
        } else {
            -1
        }
    }

    pub fn decode(b: &[u8], pos: usize, end: usize) -> (r: Result<
        (Self, usize),
        AsterixError,
    >)
        requires
            pos <= end <= b@.len(),
        ensures
            r matches Ok((t, next)) ==> t.wf() && pos < next <= end && t.enc() == b@.subrange(
                pos as int,
                next as int,
            ),
            r is Ok <==> Self::spec_len(b@, pos as int, end as int) >= 0,
            r matches Ok((t, next)) ==> next == pos + Self::spec_len(b@, pos as int, end as int),
            r matches Err(e) ==> e == AsterixError::Underflow,
    {
        if end - pos < 1 {
            return Err(AsterixError::Underflow);
        }
        let b0 = b[pos];
        proof {
            lemma_split_1_1_6(b0);
        }
        let cal = (b0 >> 7) & 1;
        let rds = (b0 >> 6) & 1;
        let spare = b0 & 0x3f;
        let mut cur = pos + 1;
        let calculated_doppler_speed = if cal == 1 {
            match CalculatedDopplerSpeed::decode(b, cur, end) {
                Ok((s, next)) => {
                    cur = next;
                    Some(s)
                },
                Err(e) => {
                    return Err(e);
                },
            }
        } else {
            None
        };
        let ghost mid = cur as int;
        let raw_doppler_speed = if rds == 1 {
            match RawDopplerSpeed::decode(b, cur, end) {
                Ok((s, next)) => {
                    cur = next;
                    Some(s)
                },
                Err(e) => {
                    return Err(e);
                },
            }
        } else {
            None
        };
        let t = RadialDopplerSpeed { cal, rds, spare, calculated_doppler_speed, raw_doppler_speed };
        proof {
            assert(seq![(t.cal << 7) | (t.rds << 6) | t.spare] =~= b@.subrange(pos as int, pos + 1));
            lemma_subrange_join(b@, pos as int, pos + 1, mid);
            lemma_subrange_join(b@, pos as int, mid, cur as int);
            assert(t.enc() =~= b@.subrange(pos as int, cur as int));
        }
        Ok((t, cur))
    }

    pub fn encode(&self, out: &mut Vec<u8>)
        requires
            self.wf(),
        ensures
            final(out)@ == old(out)@ + self.enc(),
    {
        out.push((self.cal << 7) | (self.rds << 6) | self.spare);
        match &self.calculated_doppler_speed {
            Some(s) => s.encode(out),
            None => (),
        }
        match &self.raw_doppler_speed {
            Some(s) => s.encode(out),
            None => (),
        }
        proof {
            assert(out@ =~= old(out)@ + self.enc());
        }
    }
}

/// The first octet of the target report descriptor splits into its fields
/// and reassembles from them.
proof fn lemma_split_trd(b0: u8)
    by (bit_vector)
    ensures
        (b0 >> 5) < 8,
        (b0 >> 4) & 1 <= 1,
        (b0 >> 3) & 1 <= 1,
        (b0 >> 2) & 1 <= 1,
        (b0 >> 1) & 1 <= 1,
        b0 & 1 <= 1,
        (((b0 >> 5) << 5) | (((b0 >> 4) & 1) << 4) | (((b0 >> 3) & 1) << 3) | (((b0 >> 2) & 1) << 2)
            | (((b0 >> 1) & 1) << 1) | (b0 & 1)) == b0,
{
}

/// The first extent of the target report descriptor splits into its fields
/// and reassembles from them.
proof fn lemma_split_trd_ext(b1: u8)
    by (bit_vector)
    ensures
        (b1 >> 7) & 1 <= 1,
        (b1 >> 6) & 1 <= 1,
        (b1 >> 5) & 1 <= 1,
        (b1 >> 4) & 1 <= 1,
        (b1 >> 3) & 1 <= 1,
        (b1 >> 1) & 3 <= 3,
        b1 & 1 <= 1,
        ((((b1 >> 7) & 1) << 7) | (((b1 >> 6) & 1) << 6) | (((b1 >> 5) & 1) << 5) | (((b1 >> 4) & 1)
            << 4) | (((b1 >> 3) & 1) << 3) | (((b1 >> 1) & 3) << 1) | (b1 & 1)) == b1,
{
}

/// Type and properties of the target report: one octet, extended by one
/// more when its FX bit is set.
///
/// Data Item I048/020.
#[derive(Debug, Clone, PartialEq)]
pub struct TargetReportDescriptor {
    pub typ: TYP,
    pub sim: SIM,
    pub rdp: RDP,
    pub spi: SPI,
    pub rab: RAB,
    pub fx1: FX,
    pub tst: Option<TST>,
    pub err: Option<ERR>,
    pub xpp: Option<XPP>,
    pub me: Option<ME>,
    pub mi: Option<MI>,
    pub foe_fri: Option<FOEFRI>,
    pub fx2: Option<FX>,
}

impl WireItem for TargetReportDescriptor {
    open spec fn wf(self) -> bool {
        &&& (self.fx1 == FX::ExtensionIntoFirstExtent <==> self.tst is Some)
        &&& (self.fx1 == FX::ExtensionIntoFirstExtent <==> self.err is Some)
        &&& (self.fx1 == FX::ExtensionIntoFirstExtent <==> self.xpp is Some)
        &&& (self.fx1 == FX::ExtensionIntoFirstExtent <==> self.me is Some)
        &&& (self.fx1 == FX::ExtensionIntoFirstExtent <==> self.mi is Some)
        &&& (self.fx1 == FX::ExtensionIntoFirstExtent <==> self.foe_fri is Some)
        &&& (self.fx1 == FX::ExtensionIntoFirstExtent <==> self.fx2 is Some)
    }

    open spec fn enc(self) -> Seq<u8> {
        seq![
            (self.typ.as_bits() << 5) | (self.sim.as_bits() << 4) | (self.rdp.as_bits() << 3) | (
            self.spi.as_bits() << 2) | (self.rab.as_bits() << 1) | self.fx1.as_bits(),
        ] + (match (self.tst, self.err, self.xpp, self.me, self.mi, self.foe_fri, self.fx2) {
            (Some(tst), Some(err), Some(xpp), Some(me), Some(mi), Some(ff), Some(fx2)) => seq![
                (tst.as_bits() << 7) | (err.as_bits() << 6) | (xpp.as_bits() << 5) | (me.as_bits()
                    << 4) | (mi.as_bits() << 3) | (ff.as_bits() << 1) | fx2.as_bits(),
            ],
            _ => Seq::empty(),
        })
    }
}

impl TargetReportDescriptor {
    pub const FRN_48: u8 = 0b10_0000;

    /// Bytes this item occupies when decoded at `pos`, or a negative
    /// length when it cannot be decoded there.
    pub open spec fn spec_len(b: Seq<u8>, pos: int, end: int) -> int {
        if pos >= end {
            -1
        } else if b[pos] & 1 == 1 {
            if pos + 2 <= end {
                2
            } else {
                -1
            }
        } else {
            1
        }
    }

    pub fn decode(b: &[u8], pos: usize, end: usize) -> (r: Result<
        (Self, usize),
        AsterixError,
    >)
        requires
            pos <= end <= b@.len(),
        ensures
            r matches Ok((t, next)) ==> t.wf() && pos < next <= end && t.enc() == b@.subrange(
                pos as int,
                next as int,
            ),
            r is Ok <==> Self::spec_len(b@, pos as int, end as int) >= 0,
            r matches Ok((t, next)) ==> next == pos + Self::spec_len(b@, pos as int, end as int),
            r matches Err(e) ==> e == AsterixError::Underflow,
    {
        if end - pos < 1 {
            return Err(AsterixError::Underflow);
        }
        let b0 = b[pos];
        proof {
            lemma_split_trd(b0);
        }
        let fx1 = FX::from_bits(b0 & 1);
        if b0 & 1 == 1 {
            if end - pos < 2 {
                return Err(AsterixError::Underflow);
            }
            let b1 = b[pos + 1];
            proof {
                lemma_split_trd_ext(b1);
            }
            let t = TargetReportDescriptor {
                typ: TYP::from_bits(b0 >> 5),
                sim: SIM::from_bits((b0 >> 4) & 1),
                rdp: RDP::from_bits((b0 >> 3) & 1),
                spi: SPI::from_bits((b0 >> 2) & 1),
                rab: RAB::from_bits((b0 >> 1) & 1),
                fx1,
                tst: Some(TST::from_bits((b1 >> 7) & 1)),
                err: Some(ERR::from_bits((b1 >> 6) & 1)),
                xpp: Some(XPP::from_bits((b1 >> 5) & 1)),
                me: Some(ME::from_bits((b1 >> 4) & 1)),
                mi: Some(MI::from_bits((b1 >> 3) & 1)),
                foe_fri: Some(FOEFRI::from_bits((b1 >> 1) & 3)),
                fx2: Some(FX::from_bits(b1 & 1)),
            };
            proof {
                assert(t.enc() =~= b@.subrange(pos as int, pos + 2));
            }
            Ok((t, pos + 2))
        } else {
            let t = TargetReportDescriptor {
                typ: TYP::from_bits(b0 >> 5),
                sim: SIM::from_bits((b0 >> 4) & 1),
                rdp: RDP::from_bits((b0 >> 3) & 1),
                spi: SPI::from_bits((b0 >> 2) & 1),
                rab: RAB::from_bits((b0 >> 1) & 1),
                fx1,
                tst: None,
                err: None,
                xpp: None,
                me: None,
                mi: None,
                foe_fri: None,
                fx2: None,
            };
            proof {
                assert(t.enc() =~= b@.subrange(pos as int, pos + 1));
            }
            Ok((t, pos + 1))
        }
    }

    pub fn encode(&self, out: &mut Vec<u8>)
        requires
            self.wf(),
        ensures
            final(out)@ == old(out)@ + self.enc(),
    {
        out.push(
            (self.typ.to_bits() << 5) | (self.sim.to_bits() << 4) | (self.rdp.to_bits() << 3) | (
            self.spi.to_bits() << 2) | (self.rab.to_bits() << 1) | self.fx1.to_bits(),
        );
        match (&self.tst, &self.err, &self.xpp, &self.me, &self.mi, &self.foe_fri, &self.fx2) {
            (Some(tst), Some(err), Some(xpp), Some(me), Some(mi), Some(ff), Some(fx2)) => {
                out.push(
                    (tst.to_bits() << 7) | (err.to_bits() << 6) | (xpp.to_bits() << 5) | (
                    me.to_bits() << 4) | (mi.to_bits() << 3) | (ff.to_bits() << 1)
                        | fx2.to_bits(),
                );
            },
            _ => (),
        }
        proof {
            assert(out@ =~= old(out)@ + self.enc());
        }
    }
}

/// The first octet of the track status splits into its fields and
/// reassembles from them.
proof fn lemma_split_ts(b0: u8)
    by (bit_vector)
    ensures
        (b0 >> 7) & 1 <= 1,
        (b0 >> 5) & 3 <= 3,
        (b0 >> 4) & 1 <= 1,
        (b0 >> 3) & 1 <= 1,
        (b0 >> 1) & 3 <= 3,
        b0 & 1 <= 1,
        ((((b0 >> 7) & 1) << 7) | (((b0 >> 5) & 3) << 5) | (((b0 >> 4) & 1) << 4) | (((b0 >> 3) & 1)
            << 3) | (((b0 >> 1) & 3) << 1) | (b0 & 1)) == b0,
{
}

/// The first extent of the track status splits into its fields and
/// reassembles from them.
proof fn lemma_split_ts_ext(b1: u8)
    by (bit_vector)
    ensures
        (b1 >> 7) & 1 <= 1,
        (b1 >> 6) & 1 <= 1,
        (b1 >> 5) & 1 <= 1,
        (b1 >> 4) & 1 <= 1,
        (b1 >> 1) & 7 <= 7,
        b1 & 1 <= 1,
        ((((b1 >> 7) & 1) << 7) | (((b1 >> 6) & 1) << 6) | (((b1 >> 5) & 1) << 5) | (((b1 >> 4) & 1)
            << 4) | (((b1 >> 1) & 7) << 1) | (b1 & 1)) == b1,
{
}

/// Status of a monoradar track: one octet, extended by one more when its
/// FX bit is set.
///
/// Data Item I048/170.
#[derive(Debug, Clone, PartialEq)]
pub struct TrackStatus {
    pub cnf: CNF,
    pub rad: RAD,
    pub dou: DOU,
    pub mah: MAH,
    pub cdm: CDM,
    pub fx1: FX,
    pub tre: Option<TRE>,
    pub gho: Option<GHO>,
    pub sup: Option<SUP>,
    pub tcc: Option<TCC>,
    pub reserved: Option<u8>,
    pub fx2: Option<FX>,
}

impl WireItem for TrackStatus {
    open spec fn wf(self) -> bool {
        &&& (self.fx1 == FX::ExtensionIntoFirstExtent <==> self.tre is Some)
        &&& (self.fx1 == FX::ExtensionIntoFirstExtent <==> self.gho is Some)
        &&& (self.fx1 == FX::ExtensionIntoFirstExtent <==> self.sup is Some)
        &&& (self.fx1 == FX::ExtensionIntoFirstExtent <==> self.tcc is Some)
        &&& (self.fx1 == FX::ExtensionIntoFirstExtent <==> self.reserved is Some)
        &&& (self.fx1 == FX::ExtensionIntoFirstExtent <==> self.fx2 is Some)
        &&& (match self.reserved {
            Some(rsv) => rsv <= 7,
            None => true,
        })
    }

    open spec fn enc(self) -> Seq<u8> {
        seq![
            (self.cnf.as_bits() << 7) | (self.rad.as_bits() << 5) | (self.dou.as_bits() << 4) | (
            self.mah.as_bits() << 3) | (self.cdm.as_bits() << 1) | self.fx1.as_bits(),
        ] + (match (self.tre, self.gho, self.sup, self.tcc, self.reserved, self.fx2) {
            (Some(tre), Some(gho), Some(sup), Some(tcc), Some(rsv), Some(fx2)) => seq![
                (tre.as_bits() << 7) | (gho.as_bits() << 6) | (sup.as_bits() << 5) | (tcc.as_bits()
                    << 4) | (rsv << 1) | fx2.as_bits(),
            ],
            _ => Seq::empty(),
        })
    }
}

impl TrackStatus {
    pub const FRN_48: u8 = 0b10;

    /// Bytes this item occupies when decoded at `pos`, or a negative
    /// length when it cannot be decoded there.
    pub open spec fn spec_len(b: Seq<u8>, pos: int, end: int) -> int {
        if pos >= end {
            -1
        } else if b[pos] & 1 == 1 {
            if pos + 2 <= end {
                2
            } else {
                -1
            }
        } else {
            1
        }
    }

    pub fn decode(b: &[u8], pos: usize, end: usize) -> (r: Result<
        (Self, usize),
        AsterixError,
    >)
        requires
            pos <= end <= b@.len(),
        ensures
            r matches Ok((t, next)) ==> t.wf() && pos < next <= end && t.enc() == b@.subrange(
                pos as int,
                next as int,
            ),
            r is Ok <==> Self::spec_len(b@, pos as int, end as int) >= 0,
            r matches Ok((t, next)) ==> next == pos + Self::spec_len(b@, pos as int, end as int),
            r matches Err(e) ==> e == AsterixError::Underflow,
    {
        if end - pos < 1 {
            return Err(AsterixError::Underflow);
        }
        let b0 = b[pos];
        proof {
            lemma_split_ts(b0);
        }
        let fx1 = FX::from_bits(b0 & 1);
        if b0 & 1 == 1 {
            if end - pos < 2 {
                return Err(AsterixError::Underflow);
            }
            let b1 = b[pos + 1];
            proof {
                lemma_split_ts_ext(b1);
            }
            let t = TrackStatus {
                cnf: CNF::from_bits((b0 >> 7) & 1),
                rad: RAD::from_bits((b0 >> 5) & 3),
                dou: DOU::from_bits((b0 >> 4) & 1),
                mah: MAH::from_bits((b0 >> 3) & 1),
                cdm: CDM::from_bits((b0 >> 1) & 3),
                fx1,
                tre: Some(TRE::from_bits((b1 >> 7) & 1)),
                gho: Some(GHO::from_bits((b1 >> 6) & 1)),
                sup: Some(SUP::from_bits((b1 >> 5) & 1)),
                tcc: Some(TCC::from_bits((b1 >> 4) & 1)),
                reserved: Some((b1 >> 1) & 7),
                fx2: Some(FX::from_bits(b1 & 1)),
            };
            proof {
                assert(t.enc() =~= b@.subrange(pos as int, pos + 2));
            }
            Ok((t, pos + 2))
        } else {
            let t = TrackStatus {
                cnf: CNF::from_bits((b0 >> 7) & 1),
                rad: RAD::from_bits((b0 >> 5) & 3),
                dou: DOU::from_bits((b0 >> 4) & 1),
                mah: MAH::from_bits((b0 >> 3) & 1),
                cdm: CDM::from_bits((b0 >> 1) & 3),
                fx1,
                tre: None,
                gho: None,
                sup: None,
                tcc: None,
                reserved: None,
                fx2: None,
            };
            proof {
                assert(t.enc() =~= b@.subrange(pos as int, pos + 1));
            }
            Ok((t, pos + 1))
        }
    }

    pub fn encode(&self, out: &mut Vec<u8>)
        requires
            self.wf(),
        ensures
            final(out)@ == old(out)@ + self.enc(),
    {
        out.push(
            (self.cnf.to_bits() << 7) | (self.rad.to_bits() << 5) | (self.dou.to_bits() << 4) | (
            self.mah.to_bits() << 3) | (self.cdm.to_bits() << 1) | self.fx1.to_bits(),
        );
        match (&self.tre, &self.gho, &self.sup, &self.tcc, &self.reserved, &self.fx2) {
            (Some(tre), Some(gho), Some(sup), Some(tcc), Some(rsv), Some(fx2)) => {
                out.push(
                    (tre.to_bits() << 7) | (gho.to_bits() << 6) | (sup.to_bits() << 5) | (
                    tcc.to_bits() << 4) | (*rsv << 1) | fx2.to_bits(),
                );
            },
            _ => (),
        }
        proof {
            assert(out@ =~= old(out)@ + self.enc());
        }
    }
}

/// Message type of a category 034 service message.
///
/// Data Item I034/000.
#[derive(Debug, Clone, PartialEq)]
pub struct MessageType {
    pub t: MTYPE,
}

impl WireItem for MessageType {
    open spec fn wf(self) -> bool {
        true
    }

    open spec fn enc(self) -> Seq<u8> {
        seq![self.t.as_bits()]
    }
}

impl MessageType {
    pub const FRN_34: u8 = 0b100_0000;

    /// Bytes this item occupies when decoded at `pos`, or a negative
    /// length when it cannot be decoded there.
    pub open spec fn spec_len(b: Seq<u8>, pos: int, end: int) -> int {
        if pos + 1 <= end {
            if MTYPE::valid_bits(b[pos]) {
                1
            } else {
                -1
            }
        } else {
            -1
        }
    }

    pub fn decode(b: &[u8], pos: usize, end: usize) -> (r: Result<
        (Self, usize),
        AsterixError,
    >)
        requires
            pos <= end <= b@.len(),
        ensures
            r matches Ok((t, next)) ==> t.wf() && next == pos + 1 && t.enc() == b@.subrange(
                pos as int,
                next as int,
            ),
            r is Ok <==> (pos + 1 <= end && MTYPE::valid_bits(b@[pos as int])),
            r matches Err(e) ==> e == (if pos + 1 > end {
                AsterixError::Underflow
            } else {
                AsterixError::InvalidDiscriminant
            }),
    {
        if end - pos < 1 {
            return Err(AsterixError::Underflow);
        }
        match MTYPE::from_bits(b[pos]) {
            Some(t) => {
                let item = MessageType { t };
                proof {
                    assert(item.enc() =~= b@.subrange(pos as int, pos + 1));
                }
                Ok((item, pos + 1))
            },
            None => Err(AsterixError::InvalidDiscriminant),
        }
    }

    pub fn encode(&self, out: &mut Vec<u8>)
        requires
            self.wf(),
        ensures
            final(out)@ == old(out)@ + self.enc(),
    {
        out.push(self.t.to_bits());
        proof {
            assert(out@ =~= old(out)@ + self.enc());
        }
    }
}

/// Data filter of category 034: a single typed octet.
///
/// Data Item I034/110.
#[derive(Debug, Clone, PartialEq)]
pub struct DataFilter {
    pub typ: DataFilterTYP,
}

impl WireItem for DataFilter {
    open spec fn wf(self) -> bool {
        true
    }

    open spec fn enc(self) -> Seq<u8> {
        seq![self.typ.as_bits()]
    }
}

impl DataFilter {
    pub const FRN_34: u8 = 0b0010_0000;

    /// Bytes this item occupies when decoded at `pos`, or a negative
    /// length when it cannot be decoded there.
    pub open spec fn spec_len(b: Seq<u8>, pos: int, end: int) -> int {
        if pos + 1 <= end {
            if DataFilterTYP::valid_bits(b[pos]) {
                1
            } else {
                -1
            }
        } else {
            -1
        }
    }

    pub fn decode(b: &[u8], pos: usize, end: usize) -> (r: Result<
        (Self, usize),
        AsterixError,
    >)
        requires
            pos <= end <= b@.len(),
        ensures
            r matches Ok((t, next)) ==> t.wf() && next == pos + 1 && t.enc() == b@.subrange(
                pos as int,
                next as int,
            ),
            r is Ok <==> (pos + 1 <= end && DataFilterTYP::valid_bits(b@[pos as int])),
            r matches Err(e) ==> e == (if pos + 1 > end {
                AsterixError::Underflow
            } else {
                AsterixError::InvalidDiscriminant
            }),
    {
        if end - pos < 1 {
            return Err(AsterixError::Underflow);
        }
        match DataFilterTYP::from_bits(b[pos]) {
            Some(typ) => {
                let item = DataFilter { typ };
                proof {
                    assert(item.enc() =~= b@.subrange(pos as int, pos + 1));
                }
                Ok((item, pos + 1))
            },
            None => Err(AsterixError::InvalidDiscriminant),
        }
    }

    pub fn encode(&self, out: &mut Vec<u8>)
        requires
            self.wf(),
        ensures
            final(out)@ == old(out)@ + self.enc(),
    {
        out.push(self.typ.to_bits());
        proof {
            assert(out@ =~= old(out)@ + self.enc());
        }
    }
}

/// An octet carrying a five-bit type and the top of an 11-bit counter
/// splits into those parts and reassembles from them.
proof fn lemma_split_5_11(b0: u8, b1: u8)
    by (bit_vector)
    ensures
        (b0 >> 3) < 32,
        ((((b0 & 7) as u16) << 8) | (b1 as u16)) < 0x800,
        (((b0 >> 3) << 3) | ((((((b0 & 7) as u16) << 8) | (b1 as u16)) >> 8) as u8)) == b0,
        ((((b0 & 7) as u16) << 8) | (b1 as u16)) as u8 == b1,
{
}

/// One message counter: the kind of report counted and its count.
#[derive(Debug, Clone, Copy, PartialEq)]
pub struct MessageCounter {
    pub typ: MessageCounterTYP,
    pub counter: u16,
}

impl WireItem for MessageCounter {
    open spec fn wf(self) -> bool {
        self.counter < 0x800
    }

    open spec fn enc(self) -> Seq<u8> {
        seq![(self.typ.as_bits() << 3) | ((self.counter >> 8) as u8), self.counter as u8]
    }
}

impl MessageCounter {
    /// Bytes this item occupies when decoded at `pos`, or a negative
    /// length when it cannot be decoded there.
    pub open spec fn spec_len(b: Seq<u8>, pos: int, end: int) -> int {
        if pos + 2 <= end {
            if MessageCounterTYP::valid_bits(b[pos] >> 3) {
                2
            } else {
                -1
            }
        } else {
            -1
        }
    }

    pub fn decode(b: &[u8], pos: usize, end: usize) -> (r: Result<
        (Self, usize),
        AsterixError,
    >)
        requires
            pos <= end <= b@.len(),
        ensures
            r matches Ok((t, next)) ==> t.wf() && next == pos + 2 && t.enc() == b@.subrange(
                pos as int,
                next as int,
            ),
            r is Ok <==> (pos + 2 <= end && MessageCounterTYP::valid_bits(b@[pos as int] >> 3)),
            r matches Err(e) ==> e == (if pos + 2 > end {
                AsterixError::Underflow
            } else {
                AsterixError::InvalidDiscriminant
            }),
    {
        if end - pos < 2 {
            return Err(AsterixError::Underflow);
        }
        let (b0, b1) = (b[pos], b[pos + 1]);
        proof {
            lemma_split_5_11(b0, b1);
        }
        match MessageCounterTYP::from_bits(b0 >> 3) {
            Some(typ) => {
                let t = MessageCounter { typ, counter: (((b0 & 7) as u16) << 8) | (b1 as u16) };
                proof {
                    assert(t.enc() =~= b@.subrange(pos as int, pos + 2));
                }
                Ok((t, pos + 2))
            },
            None => Err(AsterixError::InvalidDiscriminant),
        }
    }

    pub fn encode(&self, out: &mut Vec<u8>)
        requires
            self.wf(),
        ensures
            final(out)@ == old(out)@ + self.enc(),
    {
        out.push((self.typ.to_bits() << 3) | ((self.counter >> 8) as u8));
        out.push(self.counter as u8);
        proof {
            assert(out@ =~= old(out)@ + self.enc());
        }
    }
}

/// Message count values for the last completed antenna revolution: a
/// repetition count followed by that many counters.
///
/// Data Item I034/070. The count is authoritative on decode and derived
/// from the counter list on encode.
#[derive(Debug, Clone, PartialEq)]
pub struct MessageCountValues {
    pub count: u8,
    pub counters: Vec<MessageCounter>,
}

impl WireItem for MessageCountValues {
    open spec fn wf(self) -> bool {
        &&& self.count == self.counters@.len()
        &&& self.counters@.len() <= 255
        &&& crate::wire::items_wf(self.counters@)
    }

    open spec fn enc(self) -> Seq<u8> {
        seq![self.count] + crate::wire::items_enc(self.counters@)
    }
}

impl MessageCountValues {
    pub const FRN_34: u8 = 0b1000_0000;

    /// Bytes this item occupies when decoded at `pos`, or a negative
    /// length when it cannot be decoded there.
    pub open spec fn spec_len(b: Seq<u8>, pos: int, end: int) -> int {
        if pos < end && pos + 1 + 2 * (b[pos] as int) <= end && (forall|i: int|
            0 <= i < b[pos] as int ==> MessageCounterTYP::valid_bits(
                #[trigger] b[pos + 1 + 2 * i] >> 3,
            )) {
            1 + 2 * (b[pos] as int)
        } else {
            -1
        }
    }

    pub fn decode(b: &[u8], pos: usize, end: usize) -> (r: Result<
        (Self, usize),
        AsterixError,
    >)
        requires
            pos <= end <= b@.len(),
        ensures
            r matches Ok((t, next)) ==> t.wf() && pos < next <= end && t.enc() == b@.subrange(
                pos as int,
                next as int,
            ),
            r is Ok <==> Self::spec_len(b@, pos as int, end as int) >= 0,
            r matches Ok((t, next)) ==> next == pos + Self::spec_len(b@, pos as int, end as int),
            r matches Err(e) ==> e == AsterixError::Underflow || e
                == AsterixError::InvalidDiscriminant,
    {
        if end - pos < 1 {
            return Err(AsterixError::Underflow);
        }
        let count = b[pos];
        let mut cur = pos + 1;
        let mut counters: Vec<MessageCounter> = Vec::new();
        let mut i: usize = 0;
        while i < count as usize
            invariant
                pos + 1 <= cur <= end <= b@.len(),
                pos < end,
                count == b@[pos as int],
                i <= count,
                counters@.len() == i,
                cur == pos + 1 + 2 * i,
                crate::wire::items_wf(counters@),
                crate::wire::items_enc(counters@) == b@.subrange(pos + 1, cur as int),
                forall|j: int|
                    0 <= j < i ==> MessageCounterTYP::valid_bits(
                        #[trigger] b@[pos + 1 + 2 * j] >> 3,
                    ),
            decreases count - i,
        {
            match MessageCounter::decode(b, cur, end) {
                Ok((m, next)) => {
                    proof {
                        crate::wire::lemma_items_enc_push(counters@, m);
                        lemma_subrange_join(b@, pos + 1, cur as int, next as int);
                    }
                    counters.push(m);
                    cur = next;
                },
                Err(e) => {
                    proof {
                        if cur + 2 > end {
                            assert(pos + 1 + 2 * (count as int) >= cur + 2);
                        } else {
                            assert(!MessageCounterTYP::valid_bits(b@[cur as int] >> 3));
                        }
                    }
                    return Err(e);
                },
            }
            i += 1;
        }
        let t = MessageCountValues { count, counters };
        proof {
            lemma_subrange_join(b@, pos as int, pos + 1, cur as int);
            assert(seq![count] =~= b@.subrange(pos as int, pos + 1));
            assert(t.enc() =~= b@.subrange(pos as int, cur as int));
        }
        Ok((t, cur))
    }

    pub fn encode(&self, out: &mut Vec<u8>)
        requires
            self.wf(),
        ensures
            final(out)@ == old(out)@ + self.enc(),
    {
        out.push(self.count);
        let n = self.counters.len();
        let mut i: usize = 0;
        while i < n
            invariant
                n == self.counters@.len(),
                i <= n,
                crate::wire::items_wf(self.counters@),
                out@ == old(out)@ + seq![self.count] + crate::wire::items_enc(
                    self.counters@.subrange(0, i as int),
                ),
            decreases n - i,
        {
            proof {
                crate::wire::lemma_items_enc_push(
                    self.counters@.subrange(0, i as int),
                    self.counters@[i as int],
                );
                assert(self.counters@.subrange(0, i + 1) =~= self.counters@.subrange(0, i as int).push(
                    self.counters@[i as int]));
            }
            let c = self.counters[i];
            c.encode(out);
            i += 1;
        }
        proof {
            assert(self.counters@.subrange(0, n as int) =~= self.counters@);
            assert(out@ =~= old(out)@ + self.enc());
        }
    }
}

/// The leading octet of the two compound system items splits into its four
/// presence flags, spare bits and FX bit, and reassembles from them.
proof fn lemma_split_sys_head(b0: u8)
    by (bit_vector)
    ensures
        (b0 >> 7) & 1 <= 1,
        (b0 >> 5) & 3 <= 3,
        (b0 >> 4) & 1 <= 1,
        (b0 >> 3) & 1 <= 1,
        (b0 >> 2) & 1 <= 1,
        (b0 >> 1) & 1 <= 1,
        b0 & 1 <= 1,
        ((((b0 >> 7) & 1) << 7) | (((b0 >> 5) & 3) << 5) | (((b0 >> 4) & 1) << 4) | (((b0 >> 3) & 1)
            << 3) | (((b0 >> 2) & 1) << 2) | (((b0 >> 1) & 1) << 1) | (b0 & 1)) == b0,
        ((b0 >> 7) & 1 == 1) <==> (b0 & 0x80 == 0x80),
        ((b0 >> 4) & 1 == 1) <==> (b0 & 0x10 == 0x10),
        ((b0 >> 3) & 1 == 1) <==> (b0 & 0x08 == 0x08),
        ((b0 >> 2) & 1 == 1) <==> (b0 & 0x04 == 0x04),
{
}

/// An octet of eight one-bit fields splits into them and reassembles from
/// them.
proof fn lemma_split_8x1(b0: u8)
    by (bit_vector)
    ensures
        (b0 >> 7) & 1 <= 1,
        (b0 >> 6) & 1 <= 1,
        (b0 >> 5) & 1 <= 1,
        (b0 >> 4) & 1 <= 1,
        (b0 >> 3) & 1 <= 1,
        (b0 >> 2) & 1 <= 1,
        (b0 >> 1) & 1 <= 1,
        b0 & 1 <= 1,
        ((((b0 >> 7) & 1) << 7) | (((b0 >> 6) & 1) << 6) | (((b0 >> 5) & 1) << 5) | (((b0 >> 4) & 1)
            << 4) | (((b0 >> 3) & 1) << 3) | (((b0 >> 2) & 1) << 2) | (((b0 >> 1) & 1) << 1) | (b0
            & 1)) == b0,
{
}

/// Common system (COM) status sub-field of the system configuration item.
#[derive(Debug, Clone, Copy, PartialEq)]
pub struct ComSubField {
    pub nogo: NOGO,
    pub rdpc: RDPC,
    pub rdpr: RDPR,
    pub ovl_rdp: OVL,
    pub olv_xmt: OVL,
    pub msc: MSC,
    pub tsv: TSV,
    pub spare: u8,
}

impl WireItem for ComSubField {
    open spec fn wf(self) -> bool {
        self.spare <= 1
    }

    open spec fn enc(self) -> Seq<u8> {
        seq![
            (self.nogo.as_bits() << 7) | (self.rdpc.as_bits() << 6) | (self.rdpr.as_bits() << 5) | (
            self.ovl_rdp.as_bits() << 4) | (self.olv_xmt.as_bits() << 3) | (self.msc.as_bits()
                << 2) | (self.tsv.as_bits() << 1) | self.spare,
        ]
    }
}

impl ComSubField {
    /// Bytes this item occupies when decoded at `pos`, or a negative
    /// length when it cannot be decoded there.
    pub open spec fn spec_len(b: Seq<u8>, pos: int, end: int) -> int {
        if pos + 1 <= end {
            1
        } else {
            -1
        }
    }

    pub fn decode(b: &[u8], pos: usize, end: usize) -> (r: Result<
        (Self, usize),
        AsterixError,
    >)
        requires
            pos <= end <= b@.len(),
        ensures
            r matches Ok((t, next)) ==> t.wf() && next == pos + 1 && t.enc() == b@.subrange(
                pos as int,
                next as int,
            ),
            r is Ok <==> pos + 1 <= end,
            r matches Err(e) ==> e == AsterixError::Underflow,
    {
        if end - pos < 1 {
            return Err(AsterixError::Underflow);
        }
        let b0 = b[pos];
        proof {
            lemma_split_8x1(b0);
        }
        let t = ComSubField {
            nogo: NOGO::from_bits((b0 >> 7) & 1),
            rdpc: RDPC::from_bits((b0 >> 6) & 1),
            rdpr: RDPR::from_bits((b0 >> 5) & 1),
            ovl_rdp: OVL::from_bits((b0 >> 4) & 1),
            olv_xmt: OVL::from_bits((b0 >> 3) & 1),
            msc: MSC::from_bits((b0 >> 2) & 1),
            tsv: TSV::from_bits((b0 >> 1) & 1),
            spare: b0 & 1,
        };
        proof {
            assert(t.enc() =~= b@.subrange(pos as int, pos + 1));
        }
        Ok((t, pos + 1))
    }

    pub fn encode(&self, out: &mut Vec<u8>)
        requires
            self.wf(),
        ensures
            final(out)@ == old(out)@ + self.enc(),
    {
        out.push(
            (self.nogo.to_bits() << 7) | (self.rdpc.to_bits() << 6) | (self.rdpr.to_bits() << 5) | (
            self.ovl_rdp.to_bits() << 4) | (self.olv_xmt.to_bits() << 3) | (self.msc.to_bits()
                << 2) | (self.tsv.to_bits() << 1) | self.spare,
        );
        proof {
            assert(out@ =~= old(out)@ + self.enc());
        }
    }
}

/// An octet carrying a one-bit field, a two-bit field, two one-bit fields
/// and a three-bit spare splits into them and reassembles from them.
proof fn lemma_split_1_2_1_1_3(b0: u8)
    by (bit_vector)
    ensures
        (b0 >> 7) & 1 <= 1,
        (b0 >> 5) & 3 <= 3,
        (b0 >> 4) & 1 <= 1,
        (b0 >> 3) & 1 <= 1,
        b0 & 7 <= 7,
        ((((b0 >> 7) & 1) << 7) | (((b0 >> 5) & 3) << 5) | (((b0 >> 4) & 1) << 4) | (((b0 >> 3) & 1)
            << 3) | (b0 & 7)) == b0,
{
}

/// Status sub-field of a conventional sensor (PSR or SSR).
#[derive(Debug, Clone, Copy, PartialEq)]
pub struct Sensor {
    pub ant: ANT,
    pub chab: CHAB,
    pub ovl: OVL,
    pub msc: MSC,
    pub spare: u8,
}

impl WireItem for Sensor {
    open spec fn wf(self) -> bool {
        self.spare <= 7
    }

    open spec fn enc(self) -> Seq<u8> {
        seq![
            (self.ant.as_bits() << 7) | (self.chab.as_bits() << 5) | (self.ovl.as_bits() << 4) | (
            self.msc.as_bits() << 3) | self.spare,
        ]
    }
}

impl Sensor {
    /// Bytes this item occupies when decoded at `pos`, or a negative
    /// length when it cannot be decoded there.
    pub open spec fn spec_len(b: Seq<u8>, pos: int, end: int) -> int {
        if pos + 1 <= end {
            1
        } else {
            -1
        }
    }

    pub fn decode(b: &[u8], pos: usize, end: usize) -> (r: Result<
        (Self, usize),
        AsterixError,
    >)
        requires
            pos <= end <= b@.len(),
        ensures
            r matches Ok((t, next)) ==> t.wf() && next == pos + 1 && t.enc() == b@.subrange(
                pos as int,
                next as int,
            ),
            r is Ok <==> pos + 1 <= end,
            r matches Err(e) ==> e == AsterixError::Underflow,
    {
        if end - pos < 1 {
            return Err(AsterixError::Underflow);
        }
        let b0 = b[pos];
        proof {
            lemma_split_1_2_1_1_3(b0);
        }
        let t = Sensor {
            ant: ANT::from_bits((b0 >> 7) & 1),
            chab: CHAB::from_bits((b0 >> 5) & 3),
            ovl: OVL::from_bits((b0 >> 4) & 1),
            msc: MSC::from_bits((b0 >> 3) & 1),
            spare: b0 & 7,
        };
        proof {
            assert(t.enc() =~= b@.subrange(pos as int, pos + 1));
        }
        Ok((t, pos + 1))
    }

    pub fn encode(&self, out: &mut Vec<u8>)
        requires
            self.wf(),
        ensures
            final(out)@ == old(out)@ + self.enc(),
    {
        out.push(
            (self.ant.to_bits() << 7) | (self.chab.to_bits() << 5) | (self.ovl.to_bits() << 4) | (
            self.msc.to_bits() << 3) | self.spare,
        );
        proof {
            assert(out@ =~= old(out)@ + self.enc());
        }
    }
}

/// The two octets of the Mode S sensor status sub-field split into their
/// fields and reassemble from them.
proof fn lemma_split_mds(b0: u8, b1: u8)
    by (bit_vector)
    ensures
        (b0 >> 7) & 1 <= 1,
        (b0 >> 5) & 3 <= 3,
        (b0 >> 4) & 1 <= 1,
        (b0 >> 3) & 1 <= 1,
        (b0 >> 2) & 1 <= 1,
        (b0 >> 1) & 1 <= 1,
        b0 & 1 <= 1,
        (b1 >> 7) & 1 <= 1,
        b1 & 0x7f <= 127,
        ((((b0 >> 7) & 1) << 7) | (((b0 >> 5) & 3) << 5) | (((b0 >> 4) & 1) << 4) | (((b0 >> 3) & 1)
            << 3) | (((b0 >> 2) & 1) << 2) | (((b0 >> 1) & 1) << 1) | (b0 & 1)) == b0,
        ((((b1 >> 7) & 1) << 7) | (b1 & 0x7f)) == b1,
{
}

/// Status sub-field of the Mode S sensor.
#[derive(Debug, Clone, Copy, PartialEq)]
pub struct MdsSubField {
    pub ant: ANT,
    pub chab: CHAB,
    pub ovl_sur: OVL,
    pub msc: MSC,
    pub scf: SCF,
    pub dlf: DLF,
    pub ovl_scf: OVL,
    pub ovl_dlf: OVL,
    pub spare: u8,
}

impl WireItem for MdsSubField {
    open spec fn wf(self) -> bool {
        self.spare <= 127
    }

    open spec fn enc(self) -> Seq<u8> {
        seq![
            (self.ant.as_bits() << 7) | (self.chab.as_bits() << 5) | (self.ovl_sur.as_bits() << 4)
                | (self.msc.as_bits() << 3) | (self.scf.as_bits() << 2) | (self.dlf.as_bits() << 1)
                | self.ovl_scf.as_bits(),
            (self.ovl_dlf.as_bits() << 7) | self.spare,
        ]
    }
}

impl MdsSubField {
    /// Bytes this item occupies when decoded at `pos`, or a negative
    /// length when it cannot be decoded there.
    pub open spec fn spec_len(b: Seq<u8>, pos: int, end: int) -> int {
        if pos + 2 <= end {
            2
        } else {
            -1
        }
    }

    pub fn decode(b: &[u8], pos: usize, end: usize) -> (r: Result<
        (Self, usize),
        AsterixError,
    >)
        requires
            pos <= end <= b@.len(),
        ensures
            r matches Ok((t, next)) ==> t.wf() && next == pos + 2 && t.enc() == b@.subrange(
                pos as int,
                next as int,
            ),
            r is Ok <==> pos + 2 <= end,
            r matches Err(e) ==> e == AsterixError::Underflow,
    {
        if end - pos < 2 {
            return Err(AsterixError::Underflow);
        }
        let (b0, b1) = (b[pos], b[pos + 1]);
        proof {
            lemma_split_mds(b0, b1);
        }
        let t = MdsSubField {
            ant: ANT::from_bits((b0 >> 7) & 1),
            chab: CHAB::from_bits((b0 >> 5) & 3),
            ovl_sur: OVL::from_bits((b0 >> 4) & 1),
            msc: MSC::from_bits((b0 >> 3) & 1),
            scf: SCF::from_bits((b0 >> 2) & 1),
            dlf: DLF::from_bits((b0 >> 1) & 1),
            ovl_scf: OVL::from_bits(b0 & 1),
            ovl_dlf: OVL::from_bits((b1 >> 7) & 1),
            spare: b1 & 0x7f,
        };
        proof {
            assert(t.enc() =~= b@.subrange(pos as int, pos + 2));
        }
        Ok((t, pos + 2))
    }

    pub fn encode(&self, out: &mut Vec<u8>)
        requires
            self.wf(),
        ensures
            final(out)@ == old(out)@ + self.enc(),
    {
        out.push(
            (self.ant.to_bits() << 7) | (self.chab.to_bits() << 5) | (self.ovl_sur.to_bits() << 4)
                | (self.msc.to_bits() << 3) | (self.scf.to_bits() << 2) | (self.dlf.to_bits() << 1)
                | self.ovl_scf.to_bits(),
        );
        out.push((self.ovl_dlf.to_bits() << 7) | self.spare);
        proof {
            assert(out@ =~= old(out)@ + self.enc());
        }
    }
}

/// Configuration and status of the system: a leading octet flags which of
/// the COM, PSR, SSR and Mode S sub-fields follow.
///
/// Data Item I034/050.
#[derive(Debug, Clone, PartialEq)]
pub struct SystemConfigurationAndStatus {
    pub com_bit: u8,
    pub spare_bit0: u8,
    pub psr_bit: u8,
    pub ssr_bit: u8,
    pub mds_bit: u8,
    pub spare_bit1: u8,
    pub fx_bit: FX,
    pub com: Option<ComSubField>,
    pub psr: Option<Sensor>,
    pub ssr: Option<Sensor>,
    pub mds: Option<MdsSubField>,
}

impl WireItem for SystemConfigurationAndStatus {
    open spec fn wf(self) -> bool {
        &&& self.com_bit <= 1
        &&& self.spare_bit0 <= 3
        &&& self.psr_bit <= 1
        &&& self.ssr_bit <= 1
        &&& self.mds_bit <= 1
        &&& self.spare_bit1 <= 1
        &&& (self.com is Some <==> self.com_bit == 1)
        &&& (self.psr is Some <==> self.psr_bit == 1)
        &&& (self.ssr is Some <==> self.ssr_bit == 1)
        &&& (self.mds is Some <==> self.mds_bit == 1)
        &&& opt_wf(self.com)
        &&& opt_wf(self.psr)
        &&& opt_wf(self.ssr)
        &&& opt_wf(self.mds)
    }

    open spec fn enc(self) -> Seq<u8> {
        seq![
            (self.com_bit << 7) | (self.spare_bit0 << 5) | (self.psr_bit << 4) | (self.ssr_bit
                << 3) | (self.mds_bit << 2) | (self.spare_bit1 << 1) | self.fx_bit.as_bits(),
        ] + opt_enc(self.com) + opt_enc(self.psr) + opt_enc(self.ssr) + opt_enc(self.mds)
    }
}

impl SystemConfigurationAndStatus {
    pub const FRN_34: u8 = 0b0100;

    /// Bytes this item occupies when decoded at `pos`, or a negative
    /// length when it cannot be decoded there.
    /// Bytes occupied by the sub-fields the leading octet announces.
    pub open spec fn body_len(head: u8) -> int {
        (if head & 0x80 == 0x80 {
            1int
        } else {
            0
        }) + (if head & 0x10 == 0x10 {
            1int
        } else {
            0
        }) + (if head & 0x08 == 0x08 {
            1int
        } else {
            0
        }) + (if head & 0x04 == 0x04 {
            2int
        } else {
            0
        })
    }

    pub open spec fn spec_len(b: Seq<u8>, pos: int, end: int) -> int {
        if pos < end && pos + 1 + Self::body_len(b[pos]) <= end {
            1 + Self::body_len(b[pos])
        } else {
            -1
        }
    }

    #[verifier::rlimit(100)]
    #[verifier::spinoff_prover]
    pub fn decode(b: &[u8], pos: usize, end: usize) -> (r: Result<
        (Self, usize),
        AsterixError,
    >)
        requires
            pos <= end <= b@.len(),
        ensures
            r matches Ok((t, next)) ==> t.wf() && pos < next <= end && t.enc() == b@.subrange(
                pos as int,
                next as int,
            ),
            r is Ok <==> Self::spec_len(b@, pos as int, end as int) >= 0,
            r matches Ok((t, next)) ==> next == pos + Self::spec_len(b@, pos as int, end as int),
            r matches Err(e) ==> e == AsterixError::Underflow,
    {
        if end - pos < 1 {
            return Err(AsterixError::Underflow);
        }
        let b0 = b[pos];
        proof {
            lemma_split_sys_head(b0);
        }
        let com_bit = (b0 >> 7) & 1;
        let psr_bit = (b0 >> 4) & 1;
        let ssr_bit = (b0 >> 3) & 1;
        let mds_bit = (b0 >> 2) & 1;
        let mut cur = pos + 1;
        let com = if com_bit == 1 {
            match ComSubField::decode(b, cur, end) {
                Ok((s, next)) => {
                    cur = next;
                    Some(s)
                },
                Err(e) => {
                    return Err(e);
                },
            }
        } else {
            None
        };
        let ghost m1 = cur as int;
        let psr = if psr_bit == 1 {
            match Sensor::decode(b, cur, end) {
                Ok((s, next)) => {
                    cur = next;
                    Some(s)
                },
                Err(e) => {
                    return Err(e);
                },
            }
        } else {
            None
        };
        let ghost m2 = cur as int;
        let ssr = if ssr_bit == 1 {
            match Sensor::decode(b, cur, end) {
                Ok((s, next)) => {
                    cur = next;
                    Some(s)
                },
                Err(e) => {
                    return Err(e);
                },
            }
        } else {
            None
        };
        let ghost m3 = cur as int;
        let mds = if mds_bit == 1 {
            match MdsSubField::decode(b, cur, end) {
                Ok((s, next)) => {
                    cur = next;
                    Some(s)
                },
                Err(e) => {
                    return Err(e);
                },
            }
        } else {
            None
        };
        let t = SystemConfigurationAndStatus {
            com_bit,
            spare_bit0: (b0 >> 5) & 3,
            psr_bit,
            ssr_bit,
            mds_bit,
            spare_bit1: (b0 >> 1) & 1,
            fx_bit: FX::from_bits(b0 & 1),
            com,
            psr,
            ssr,
            mds,
        };
        proof {
            assert(seq![
                (t.com_bit << 7) | (t.spare_bit0 << 5) | (t.psr_bit << 4) | (t.ssr_bit << 3) | (
                t.mds_bit << 2) | (t.spare_bit1 << 1) | t.fx_bit.as_bits(),
            ] =~= b@.subrange(pos as int, pos + 1));
            lemma_subrange_join(b@, pos as int, pos + 1, m1);
            lemma_subrange_join(b@, pos as int, m1, m2);
            lemma_subrange_join(b@, pos as int, m2, m3);
            lemma_subrange_join(b@, pos as int, m3, cur as int);
            assert(t.enc() =~= b@.subrange(pos as int, cur as int));
        }
        Ok((t, cur))
    }

    #[verifier::rlimit(50)]
    pub fn encode(&self, out: &mut Vec<u8>)
        requires
            self.wf(),
        ensures
            final(out)@ == old(out)@ + self.enc(),
    {
        out.push(
            (self.com_bit << 7) | (self.spare_bit0 << 5) | (self.psr_bit << 4) | (self.ssr_bit
                << 3) | (self.mds_bit << 2) | (self.spare_bit1 << 1) | self.fx_bit.to_bits(),
        );
        match &self.com {
            Some(s) => s.encode(out),
            None => (),
        }
        match &self.psr {
            Some(s) => s.encode(out),
            None => (),
        }
        match &self.ssr {
            Some(s) => s.encode(out),
            None => (),
        }
        match &self.mds {
            Some(s) => s.encode(out),
            None => (),
        }
        proof {
            assert(out@ =~= old(out)@ + self.enc());
        }
    }
}

/// An octet carrying a one-bit spare, two three-bit fields and a one-bit
/// spare splits into them and reassembles from them.
proof fn lemma_split_1_3_3_1(b0: u8)
    by (bit_vector)
    ensures
        (b0 >> 7) & 1 <= 1,
        (b0 >> 4) & 7 <= 7,
        (b0 >> 1) & 7 <= 7,
        b0 & 1 <= 1,
        ((((b0 >> 7) & 1) << 7) | (((b0 >> 4) & 7) << 4) | (((b0 >> 1) & 7) << 1) | (b0 & 1))
            == b0,
{
}

/// Common system (COM) processing-mode sub-field.
#[derive(Debug, Clone, Copy, PartialEq)]
pub struct ComSubField2 {
    pub spare0: u8,
    pub red_rdp: RED,
    pub red_xmt: RED,
    pub spare1: u8,
}

impl WireItem for ComSubField2 {
    open spec fn wf(self) -> bool {
        self.spare0 <= 1 && self.spare1 <= 1
    }

    open spec fn enc(self) -> Seq<u8> {
        seq![
            (self.spare0 << 7) | (self.red_rdp.as_bits() << 4) | (self.red_xmt.as_bits() << 1)
                | self.spare1,
        ]
    }
}

impl ComSubField2 {
    /// Bytes this item occupies when decoded at `pos`, or a negative
    /// length when it cannot be decoded there.
    pub open spec fn spec_len(b: Seq<u8>, pos: int, end: int) -> int {
        if pos + 1 <= end {
            1
        } else {
            -1
        }
    }

    pub fn decode(b: &[u8], pos: usize, end: usize) -> (r: Result<
        (Self, usize),
        AsterixError,
    >)
        requires
            pos <= end <= b@.len(),
        ensures
            r matches Ok((t, next)) ==> t.wf() && next == pos + 1 && t.enc() == b@.subrange(
                pos as int,
                next as int,
            ),
            r is Ok <==> pos + 1 <= end,
            r matches Err(e) ==> e == AsterixError::Underflow,
    {
        if end - pos < 1 {
            return Err(AsterixError::Underflow);
        }
        let b0 = b[pos];
        proof {
            lemma_split_1_3_3_1(b0);
        }
        let t = ComSubField2 {
            spare0: (b0 >> 7) & 1,
            red_rdp: RED::from_bits((b0 >> 4) & 7),
            red_xmt: RED::from_bits((b0 >> 1) & 7),
            spare1: b0 & 1,
        };
        proof {
            assert(t.enc() =~= b@.subrange(pos as int, pos + 1));
        }
        Ok((t, pos + 1))
    }

    pub fn encode(&self, out: &mut Vec<u8>)
        requires
            self.wf(),
        ensures
            final(out)@ == old(out)@ + self.enc(),
    {
        out.push(
            (self.spare0 << 7) | (self.red_rdp.to_bits() << 4) | (self.red_xmt.to_bits() << 1)
                | self.spare1,
        );
        proof {
            assert(out@ =~= old(out)@ + self.enc());
        }
    }
}

/// An octet carrying a one-bit field, a three-bit field, a two-bit field
/// and a two-bit spare splits into them and reassembles from them.
proof fn lemma_split_1_3_2_2(b0: u8)
    by (bit_vector)
    ensures
        (b0 >> 7) & 1 <= 1,
        (b0 >> 4) & 7 <= 7,
        (b0 >> 2) & 3 <= 3,
        b0 & 3 <= 3,
        ((((b0 >> 7) & 1) << 7) | (((b0 >> 4) & 7) << 4) | (((b0 >> 2) & 3) << 2) | (b0 & 3))
            == b0,
{
}

/// Processing-mode sub-field of the primary surveillance radar.
#[derive(Debug, Clone, Copy, PartialEq)]
pub struct PsrSubField {
    pub pol: POL,
    pub red_rad: RED,
    pub stc: STC,
    pub spare: u8,
}

impl WireItem for PsrSubField {
    open spec fn wf(self) -> bool {
        self.spare <= 3
    }

    open spec fn enc(self) -> Seq<u8> {
        seq![
            (self.pol.as_bits() << 7) | (self.red_rad.as_bits() << 4) | (self.stc.as_bits() << 2)
                | self.spare,
        ]
    }
}

impl PsrSubField {
    /// Bytes this item occupies when decoded at `pos`, or a negative
    /// length when it cannot be decoded there.
    pub open spec fn spec_len(b: Seq<u8>, pos: int, end: int) -> int {
        if pos + 1 <= end {
            1
        } else {
            -1
        }
    }

    pub fn decode(b: &[u8], pos: usize, end: usize) -> (r: Result<
        (Self, usize),
        AsterixError,
    >)
        requires
            pos <= end <= b@.len(),
        ensures
            r matches Ok((t, next)) ==> t.wf() && next == pos + 1 && t.enc() == b@.subrange(
                pos as int,
                next as int,
            ),
            r is Ok <==> pos + 1 <= end,
            r matches Err(e) ==> e == AsterixError::Underflow,
    {
        if end - pos < 1 {
            return Err(AsterixError::Underflow);
        }
        let b0 = b[pos];
        proof {
            lemma_split_1_3_2_2(b0);
        }
        let t = PsrSubField {
            pol: POL::from_bits((b0 >> 7) & 1),
            red_rad: RED::from_bits((b0 >> 4) & 7),
            stc: STC::from_bits((b0 >> 2) & 3),
            spare: b0 & 3,
        };
        proof {
            assert(t.enc() =~= b@.subrange(pos as int, pos + 1));
        }
        Ok((t, pos + 1))
    }

    pub fn encode(&self, out: &mut Vec<u8>)
        requires
            self.wf(),
        ensures
            final(out)@ == old(out)@ + self.enc(),
    {
        out.push(
            (self.pol.to_bits() << 7) | (self.red_rad.to_bits() << 4) | (self.stc.to_bits() << 2)
                | self.spare,
        );
        proof {
            assert(out@ =~= old(out)@ + self.enc());
        }
    }
}

/// Processing-mode sub-field of the secondary surveillance radar.
#[derive(Debug, Clone, Copy, PartialEq)]
pub struct SsrSubField {
    pub red_rad: RED,
    pub spare: u8,
}

impl WireItem for SsrSubField {
    open spec fn wf(self) -> bool {
        self.spare <= 31
    }

    open spec fn enc(self) -> Seq<u8> {
        seq![(self.red_rad.as_bits() << 5) | self.spare]
    }
}

impl SsrSubField {
    /// Bytes this item occupies when decoded at `pos`, or a negative
    /// length when it cannot be decoded there.
    pub open spec fn spec_len(b: Seq<u8>, pos: int, end: int) -> int {
        if pos + 1 <= end {
            1
        } else {
            -1
        }
    }

    pub fn decode(b: &[u8], pos: usize, end: usize) -> (r: Result<
        (Self, usize),
        AsterixError,
    >)
        requires
            pos <= end <= b@.len(),
        ensures
            r matches Ok((t, next)) ==> t.wf() && next == pos + 1 && t.enc() == b@.subrange(
                pos as int,
                next as int,
            ),
            r is Ok <==> pos + 1 <= end,
            r matches Err(e) ==> e == AsterixError::Underflow,
    {
        if end - pos < 1 {
            return Err(AsterixError::Underflow);
        }
        let b0 = b[pos];
        proof {
            lemma_split_3_5(b0);
        }
        let t = SsrSubField { red_rad: RED::from_bits(b0 >> 5), spare: b0 & 0x1f };
        proof {
            assert(t.enc() =~= b@.subrange(pos as int, pos + 1));
        }
        Ok((t, pos + 1))
    }

    pub fn encode(&self, out: &mut Vec<u8>)
        requires
            self.wf(),
        ensures
            final(out)@ == old(out)@ + self.enc(),
    {
        out.push((self.red_rad.to_bits() << 5) | self.spare);
        proof {
            assert(out@ =~= old(out)@ + self.enc());
        }
    }
}

/// An octet carrying a three-bit field, a one-bit field and a four-bit
/// spare splits into them and reassembles from them.
proof fn lemma_split_3_1_4(b0: u8)
    by (bit_vector)
    ensures
        (b0 >> 5) <= 7,
        (b0 >> 4) & 1 <= 1,
        b0 & 0xf <= 15,
        (((b0 >> 5) << 5) | (((b0 >> 4) & 1) << 4) | (b0 & 0xf)) == b0,
{
}

/// Processing-mode sub-field of the Mode S sensor.
#[derive(Debug, Clone, Copy, PartialEq)]
pub struct MdsSubField2 {
    pub red_rad: RED,
    pub clu: CLU,
    pub spare: u8,
}

impl WireItem for MdsSubField2 {
    open spec fn wf(self) -> bool {
        self.spare <= 15
    }

    open spec fn enc(self) -> Seq<u8> {
        seq![(self.red_rad.as_bits() << 5) | (self.clu.as_bits() << 4) | self.spare]
    }
}

impl MdsSubField2 {
    /// Bytes this item occupies when decoded at `pos`, or a negative
    /// length when it cannot be decoded there.
    pub open spec fn spec_len(b: Seq<u8>, pos: int, end: int) -> int {
        if pos + 1 <= end {
            1
        } else {
            -1
        }
    }

    pub fn decode(b: &[u8], pos: usize, end: usize) -> (r: Result<
        (Self, usize),
        AsterixError,
    >)
        requires
            pos <= end <= b@.len(),
        ensures
            r matches Ok((t, next)) ==> t.wf() && next == pos + 1 && t.enc() == b@.subrange(
                pos as int,
                next as int,
            ),
            r is Ok <==> pos + 1 <= end,
            r matches Err(e) ==> e == AsterixError::Underflow,
    {
        if end - pos < 1 {
            return Err(AsterixError::Underflow);
        }
        let b0 = b[pos];
        proof {
            lemma_split_3_1_4(b0);
        }
        let t = MdsSubField2 {
            red_rad: RED::from_bits(b0 >> 5),
            clu: CLU::from_bits((b0 >> 4) & 1),
            spare: b0 & 0xf,
        };
        proof {
            assert(t.enc() =~= b@.subrange(pos as int, pos + 1));
        }
        Ok((t, pos + 1))
    }

    pub fn encode(&self, out: &mut Vec<u8>)
        requires
            self.wf(),
        ensures
            final(out)@ == old(out)@ + self.enc(),
    {
        out.push((self.red_rad.to_bits() << 5) | (self.clu.to_bits() << 4) | self.spare);
        proof {
            assert(out@ =~= old(out)@ + self.enc());
        }
    }
}

/// Processing options in use during the last antenna revolution: a leading
/// octet flags which of the COM, PSR, SSR and Mode S sub-fields follow.
///
/// Data Item I034/060.
#[derive(Debug, Clone, PartialEq)]
pub struct SystemProcessingMode {
    pub com_bit: u8,
    pub spare_bit0: u8,
    pub psr_bit: u8,
    pub ssr_bit: u8,
    pub mds_bit: u8,
    pub spare_bit1: u8,
    pub fx_bit: FX,
    pub com: Option<ComSubField2>,
    pub psr: Option<PsrSubField>,
    pub ssr: Option<SsrSubField>,
    pub mds: Option<MdsSubField2>,
}

impl WireItem for SystemProcessingMode {
    open spec fn wf(self) -> bool {
        &&& self.com_bit <= 1
        &&& self.spare_bit0 <= 3
        &&& self.psr_bit <= 1
        &&& self.ssr_bit <= 1
        &&& self.mds_bit <= 1
        &&& self.spare_bit1 <= 1
        &&& (self.com is Some <==> self.com_bit == 1)
        &&& (self.psr is Some <==> self.psr_bit == 1)
        &&& (self.ssr is Some <==> self.ssr_bit == 1)
        &&& (self.mds is Some <==> self.mds_bit == 1)
        &&& opt_wf(self.com)
        &&& opt_wf(self.psr)
        &&& opt_wf(self.ssr)
        &&& opt_wf(self.mds)
    }

    open spec fn enc(self) -> Seq<u8> {
        seq![
            (self.com_bit << 7) | (self.spare_bit0 << 5) | (self.psr_bit << 4) | (self.ssr_bit
                << 3) | (self.mds_bit << 2) | (self.spare_bit1 << 1) | self.fx_bit.as_bits(),
        ] + opt_enc(self.com) + opt_enc(self.psr) + opt_enc(self.ssr) + opt_enc(self.mds)
    }
}

impl SystemProcessingMode {
    pub const FRN_34: u8 = 0b0010;

    /// Bytes this item occupies when decoded at `pos`, or a negative
    /// length when it cannot be decoded there.
    /// Bytes occupied by the sub-fields the leading octet announces.
    pub open spec fn body_len(head: u8) -> int {
        (if head & 0x80 == 0x80 {
            1int
        } else {
            0
        }) + (if head & 0x10 == 0x10 {
            1int
        } else {
            0
        }) + (if head & 0x08 == 0x08 {
            1int
        } else {
            0
        }) + (if head & 0x04 == 0x04 {
            1int
        } else {
            0
        })
    }

    pub open spec fn spec_len(b: Seq<u8>, pos: int, end: int) -> int {
        if pos < end && pos + 1 + Self::body_len(b[pos]) <= end {
            1 + Self::body_len(b[pos])
        } else {
            -1
        }
    }

    #[verifier::rlimit(100)]
    #[verifier::spinoff_prover]
    pub fn decode(b: &[u8], pos: usize, end: usize) -> (r: Result<
        (Self, usize),
        AsterixError,
    >)
        requires
            pos <= end <= b@.len(),
        ensures
            r matches Ok((t, next)) ==> t.wf() && pos < next <= end && t.enc() == b@.subrange(
                pos as int,
                next as int,
            ),
            r is Ok <==> Self::spec_len(b@, pos as int, end as int) >= 0,
            r matches Ok((t, next)) ==> next == pos + Self::spec_len(b@, pos as int, end as int),
            r matches Err(e) ==> e == AsterixError::Underflow,
    {
        if end - pos < 1 {
            return Err(AsterixError::Underflow);
        }
        let b0 = b[pos];
        proof {
            lemma_split_sys_head(b0);
        }
        let com_bit = (b0 >> 7) & 1;
        let psr_bit = (b0 >> 4) & 1;
        let ssr_bit = (b0 >> 3) & 1;
        let mds_bit = (b0 >> 2) & 1;
        let mut cur = pos + 1;
        let com = if com_bit == 1 {
            match ComSubField2::decode(b, cur, end) {
                Ok((s, next)) => {
                    cur = next;
                    Some(s)
                },
                Err(e) => {
                    return Err(e);
                },
            }
        } else {
            None
        };
        let ghost m1 = cur as int;
        let psr = if psr_bit == 1 {
            match PsrSubField::decode(b, cur, end) {
                Ok((s, next)) => {
                    cur = next;
                    Some(s)
                },
                Err(e) => {
                    return Err(e);
                },
            }
        } else {
            None
        };
        let ghost m2 = cur as int;
        let ssr = if ssr_bit == 1 {
            match SsrSubField::decode(b, cur, end) {
                Ok((s, next)) => {
                    cur = next;
                    Some(s)
                },
                Err(e) => {
                    return Err(e);
                },
            }
        } else {
            None
        };
        let ghost m3 = cur as int;
        let mds = if mds_bit == 1 {
            match MdsSubField2::decode(b, cur, end) {
                Ok((s, next)) => {
                    cur = next;
                    Some(s)
                },
                Err(e) => {
                    return Err(e);
                },
            }
        } else {
            None
        };
        let t = SystemProcessingMode {
            com_bit,
            spare_bit0: (b0 >> 5) & 3,
            psr_bit,
            ssr_bit,
            mds_bit,
            spare_bit1: (b0 >> 1) & 1,
            fx_bit: FX::from_bits(b0 & 1),
            com,
            psr,
            ssr,
            mds,
        };
        proof {
            assert(seq![
                (t.com_bit << 7) | (t.spare_bit0 << 5) | (t.psr_bit << 4) | (t.ssr_bit << 3) | (
                t.mds_bit << 2) | (t.spare_bit1 << 1) | t.fx_bit.as_bits(),
            ] =~= b@.subrange(pos as int, pos + 1));
            lemma_subrange_join(b@, pos as int, pos + 1, m1);
            lemma_subrange_join(b@, pos as int, m1, m2);
            lemma_subrange_join(b@, pos as int, m2, m3);
            lemma_subrange_join(b@, pos as int, m3, cur as int);
            assert(t.enc() =~= b@.subrange(pos as int, cur as int));
        }
        Ok((t, cur))
    }

    #[verifier::rlimit(50)]
    pub fn encode(&self, out: &mut Vec<u8>)
        requires
            self.wf(),
        ensures
            final(out)@ == old(out)@ + self.enc(),
    {
        out.push(
            (self.com_bit << 7) | (self.spare_bit0 << 5) | (self.psr_bit << 4) | (self.ssr_bit
                << 3) | (self.mds_bit << 2) | (self.spare_bit1 << 1) | self.fx_bit.to_bits(),
        );
        match &self.com {
            Some(s) => s.encode(out),
            None => (),
        }
        match &self.psr {
            Some(s) => s.encode(out),
            None => (),
        }
        match &self.ssr {
            Some(s) => s.encode(out),
            None => (),
        }
        match &self.mds {
            Some(s) => s.encode(out),
            None => (),
        }
        proof {
            assert(out@ =~= old(out)@ + self.enc());
        }
    }
}

/// An octet reinterpreted as a signed amplitude and back is unchanged.
proof fn lemma_i8_octet_roundtrip(v: u8)
    by (bit_vector)
    ensures
        ((v as i8) as u8) == v,
{
}

/// Encoding of an optional one-octet sub-field: absent fields occupy no
/// octets.
pub open spec fn opt_byte(o: Option<u8>) -> Seq<u8> {
    match o {
        Some(x) => seq![x],
        None => Seq::empty(),
    }
}

/// Additional information on the quality of the target report: an inner
/// presence map followed by one raw octet per present sub-field.
///
/// Data Item I048/130. The inner presence map is kept as read; it is
/// authoritative here, unlike a record's FSPEC, and each sub-field has
/// its own presence bit.
#[derive(Debug, Clone, PartialEq)]
pub struct RadarPlotCharacteristics {
    /// Inner presence map, emitted verbatim on encode.
    pub fspec: Vec<u8>,
    /// Raw SSR plot runlength; degrees are `srl * 360 / 2^13`.
    pub srl: Option<u8>,
    /// Number of received replies for M(SSR).
    pub srr: Option<u8>,
    /// Amplitude of M(SSR) reply, signed dBm.
    pub sam: Option<i8>,
    /// Raw primary plot runlength; degrees are `prl * 360 / 2^13`.
    pub prl: Option<u8>,
    /// Amplitude of primary plot, signed dBm.
    pub pam: Option<u8>,
    /// Raw difference in range between PSR and SSR plot; NM are `rpd / 256`.
    pub rpd: Option<u8>,
    /// Raw difference in azimuth; degrees are `apd * 360 / 2^14`.
    pub apd: Option<u8>,
}

impl WireItem for RadarPlotCharacteristics {
    open spec fn wf(self) -> bool {
        &&& self.fspec@.len() >= 1
        &&& (forall|i: int| 0 <= i < self.fspec@.len() - 1 ==> #[trigger] self.fspec@[i] & 1 == 1)
        &&& self.fspec@.last() & 1 == 0
        &&& (self.srl is Some <==> self.fspec@[0] & 0x80 == 0x80)
        &&& (self.srr is Some <==> self.fspec@[0] & 0x40 == 0x40)
        &&& (self.sam is Some <==> self.fspec@[0] & 0x20 == 0x20)
        &&& (self.prl is Some <==> self.fspec@[0] & 0x10 == 0x10)
        &&& (self.pam is Some <==> self.fspec@[0] & 0x08 == 0x08)
        &&& (self.rpd is Some <==> self.fspec@[0] & 0x04 == 0x04)
        &&& (self.apd is Some <==> self.fspec@[0] & 0x02 == 0x02)
    }

    open spec fn enc(self) -> Seq<u8> {
        self.fspec@ + opt_byte(self.srl) + opt_byte(self.srr) + (match self.sam {
            Some(x) => seq![x as u8],
            None => Seq::empty(),
        }) + opt_byte(self.prl) + opt_byte(self.pam) + opt_byte(self.rpd) + opt_byte(self.apd)
    }
}

impl RadarPlotCharacteristics {
    pub const FRN_48: u8 = 0b10;

    /// Bytes this item occupies when decoded at `pos`, or a negative
    /// length when it cannot be decoded there.
    /// Bytes occupied by the first four optional sub-field octets.
    pub open spec fn body_len_head(head: u8) -> int {
        (if head & 0x80 == 0x80 {
            1int
        } else {
            0
        }) + (if head & 0x40 == 0x40 {
            1int
        } else {
            0
        }) + (if head & 0x20 == 0x20 {
            1int
        } else {
            0
        }) + (if head & 0x10 == 0x10 {
            1int
        } else {
            0
        })
    }

    /// Bytes occupied by the last three optional sub-field octets.
    pub open spec fn body_len_tail(head: u8) -> int {
        (if head & 0x08 == 0x08 {
            1int
        } else {
            0
        }) + (if head & 0x04 == 0x04 {
            1int
        } else {
            0
        }) + (if head & 0x02 == 0x02 {
            1int
        } else {
            0
        })
    }

    /// Bytes occupied by the sub-fields the first presence octet announces.
    pub open spec fn body_len(head: u8) -> int {
        Self::body_len_head(head) + Self::body_len_tail(head)
    }

    pub open spec fn spec_len(b: Seq<u8>, pos: int, end: int) -> int {
        if crate::fspec::chain_ok(b, pos, end) && crate::fspec::chain_end(b, pos, end) + 1
            + Self::body_len(b[pos]) <= end {
            crate::fspec::chain_end(b, pos, end) + 1 + Self::body_len(b[pos]) - pos
        } else {
            -1
        }
    }

    /// Reads the first four optional sub-field octets that `f0` announces
    /// into `m`. Succeeds exactly when they all fit before `end`,
    /// consuming exactly `body_len_head(f0)` bytes.
    #[verifier::rlimit(100)]
    #[verifier::spinoff_prover]
    fn decode_fields_head(
        b: &[u8],
        start: usize,
        end: usize,
        f0: u8,
        m: &mut RadarPlotCharacteristics,
    ) -> (r: Result<usize, AsterixError>)
        requires
            start <= end <= b@.len(),
        ensures
            final(m).fspec == old(m).fspec,
            final(m).pam == old(m).pam,
            final(m).rpd == old(m).rpd,
            final(m).apd == old(m).apd,
            r is Ok <==> start + Self::body_len_head(f0) <= end,
            r matches Err(e) ==> e == AsterixError::Underflow,
            r matches Ok(next) ==> {
                &&& start <= next <= end
                &&& next == start + Self::body_len_head(f0)
                &&& opt_byte(final(m).srl) + opt_byte(final(m).srr) + (match final(m).sam {
                    Some(x) => seq![x as u8],
                    None => Seq::empty(),
                }) + opt_byte(final(m).prl) == b@.subrange(start as int, next as int)
                &&& (final(m).srl is Some <==> f0 & 0x80 == 0x80)
                &&& (final(m).srr is Some <==> f0 & 0x40 == 0x40)
                &&& (final(m).sam is Some <==> f0 & 0x20 == 0x20)
                &&& (final(m).prl is Some <==> f0 & 0x10 == 0x10)
            },
    {
        let mut cur = start;
        let ghost mut acc: Seq<u8> = Seq::empty();
        if f0 & 0x80 == 0x80 {
            if cur >= end {
                return Err(AsterixError::Underflow);
            }
            m.srl = Some(b[cur]);
            cur = cur + 1;
        } else {
            m.srl = None;
        }
        proof {
            if m.srl is Some {
                assert(acc + opt_byte(m.srl) =~= b@.subrange(start as int, cur as int));
            } else {
                crate::wire::lemma_seq_add_empty(acc);
            }
            acc = acc + opt_byte(m.srl);
            assert(acc == b@.subrange(start as int, cur as int));
        }
        if f0 & 0x40 == 0x40 {
            if cur >= end {
                return Err(AsterixError::Underflow);
            }
            m.srr = Some(b[cur]);
            cur = cur + 1;
        } else {
            m.srr = None;
        }
        proof {
            if m.srr is Some {
                lemma_subrange_join(b@, start as int, cur - 1, cur as int);
                assert(opt_byte(m.srr) =~= b@.subrange(cur - 1, cur as int));
            } else {
                crate::wire::lemma_seq_add_empty(acc);
            }
            acc = acc + opt_byte(m.srr);
            assert(acc == b@.subrange(start as int, cur as int));
        }
        if f0 & 0x20 == 0x20 {
            if cur >= end {
                return Err(AsterixError::Underflow);
            }
            let v = b[cur];
            proof {
                lemma_i8_octet_roundtrip(v);
            }
            m.sam = Some(v as i8);
            cur = cur + 1;
        } else {
            m.sam = None;
        }
        proof {
            if m.sam is Some {
                lemma_subrange_join(b@, start as int, cur - 1, cur as int);
                assert((match m.sam {
                    Some(x) => seq![x as u8],
                    None => Seq::empty(),
                }) =~= b@.subrange(cur - 1, cur as int));
            } else {
                crate::wire::lemma_seq_add_empty(acc);
            }
            acc = acc + (match m.sam {
                Some(x) => seq![x as u8],
                None => Seq::empty(),
            });
            assert(acc == b@.subrange(start as int, cur as int));
        }
        if f0 & 0x10 == 0x10 {
            if cur >= end {
                return Err(AsterixError::Underflow);
            }
            m.prl = Some(b[cur]);
            cur = cur + 1;
        } else {
            m.prl = None;
        }
        proof {
            if m.prl is Some {
                lemma_subrange_join(b@, start as int, cur - 1, cur as int);
                assert(opt_byte(m.prl) =~= b@.subrange(cur - 1, cur as int));
            } else {
                crate::wire::lemma_seq_add_empty(acc);
            }
            acc = acc + opt_byte(m.prl);
            assert(acc == b@.subrange(start as int, cur as int));
        }
        Ok(cur)
    }

    /// Reads the last three optional sub-field octets that `f0` announces
    /// into `m`. Succeeds exactly when they all fit before `end`,
    /// consuming exactly `body_len_tail(f0)` bytes.
    #[verifier::rlimit(100)]
    #[verifier::spinoff_prover]
    fn decode_fields_tail(
        b: &[u8],
        start: usize,
        end: usize,
        f0: u8,
        m: &mut RadarPlotCharacteristics,
    ) -> (r: Result<usize, AsterixError>)
        requires
            start <= end <= b@.len(),
        ensures
            final(m).fspec == old(m).fspec,
            final(m).srl == old(m).srl,
            final(m).srr == old(m).srr,
            final(m).sam == old(m).sam,
            final(m).prl == old(m).prl,
            r is Ok <==> start + Self::body_len_tail(f0) <= end,
            r matches Err(e) ==> e == AsterixError::Underflow,
            r matches Ok(next) ==> {
                &&& start <= next <= end
                &&& next == start + Self::body_len_tail(f0)
                &&& opt_byte(final(m).pam) + opt_byte(final(m).rpd) + opt_byte(final(m).apd)
                    == b@.subrange(start as int, next as int)
                &&& (final(m).pam is Some <==> f0 & 0x08 == 0x08)
                &&& (final(m).rpd is Some <==> f0 & 0x04 == 0x04)
                &&& (final(m).apd is Some <==> f0 & 0x02 == 0x02)
            },
    {
        let mut cur = start;
        let ghost mut acc: Seq<u8> = Seq::empty();
        if f0 & 0x08 == 0x08 {
            if cur >= end {
                return Err(AsterixError::Underflow);
            }
            m.pam = Some(b[cur]);
            cur = cur + 1;
        } else {
            m.pam = None;
        }
        proof {
            if m.pam is Some {
                assert(acc + opt_byte(m.pam) =~= b@.subrange(start as int, cur as int));
            } else {
                crate::wire::lemma_seq_add_empty(acc);
            }
            acc = acc + opt_byte(m.pam);
            assert(acc == b@.subrange(start as int, cur as int));
        }
        if f0 & 0x04 == 0x04 {
            if cur >= end {
                return Err(AsterixError::Underflow);
            }
            m.rpd = Some(b[cur]);
            cur = cur + 1;
        } else {
            m.rpd = None;
        }
        proof {
            if m.rpd is Some {
                lemma_subrange_join(b@, start as int, cur - 1, cur as int);
                assert(opt_byte(m.rpd) =~= b@.subrange(cur - 1, cur as int));
            } else {
                crate::wire::lemma_seq_add_empty(acc);
            }
            acc = acc + opt_byte(m.rpd);
            assert(acc == b@.subrange(start as int, cur as int));
        }
        if f0 & 0x02 == 0x02 {
            if cur >= end {
                return Err(AsterixError::Underflow);
            }
            m.apd = Some(b[cur]);
            cur = cur + 1;
        } else {
            m.apd = None;
        }
        proof {
            if m.apd is Some {
                lemma_subrange_join(b@, start as int, cur - 1, cur as int);
                assert(opt_byte(m.apd) =~= b@.subrange(cur - 1, cur as int));
            } else {
                crate::wire::lemma_seq_add_empty(acc);
            }
            acc = acc + opt_byte(m.apd);
            assert(acc == b@.subrange(start as int, cur as int));
        }
        Ok(cur)
    }

    #[verifier::rlimit(100)]
    #[verifier::spinoff_prover]
    pub fn decode(b: &[u8], pos: usize, end: usize) -> (r: Result<
        (Self, usize),
        AsterixError,
    >)
        requires
            pos <= end <= b@.len(),
        ensures
            r matches Ok((t, next)) ==> t.wf() && pos < next <= end && t.enc() == b@.subrange(
                pos as int,
                next as int,
            ),
            r is Ok <==> Self::spec_len(b@, pos as int, end as int) >= 0,
            r matches Ok((t, next)) ==> next == pos + Self::spec_len(b@, pos as int, end as int),
            r matches Err(e) ==> e == AsterixError::Underflow,
    {
        let (fspec, cur) = match crate::fspec::read_fspec_chain(b, pos, end) {
            Ok(v) => v,
            Err(e) => {
                return Err(e);
            },
        };
        let ghost fend = cur as int;
        let f0 = fspec[0];
        proof {
            assert(f0 == b@[pos as int]);
        }
        let mut t = RadarPlotCharacteristics {
            fspec,
            srl: None,
            srr: None,
            sam: None,
            prl: None,
            pam: None,
            rpd: None,
            apd: None,
        };
        proof {
            assert(Self::body_len_head(f0) >= 0);
            assert(Self::body_len_tail(f0) >= 0);
        }
        let mid = match Self::decode_fields_head(b, cur, end, f0, &mut t) {
            Ok(next) => next,
            Err(e) => {
                return Err(e);
            },
        };
        match Self::decode_fields_tail(b, mid, end, f0, &mut t) {
            Ok(next) => {
                proof {
                    lemma_subrange_join(b@, pos as int, fend, mid as int);
                    lemma_subrange_join(b@, pos as int, mid as int, next as int);
                    assert(t.enc() =~= b@.subrange(pos as int, next as int));
                }
                Ok((t, next))
            },
            Err(e) => Err(e),
        }
    }

    pub fn encode(&self, out: &mut Vec<u8>)
        requires
            self.wf(),
        ensures
            final(out)@ == old(out)@ + self.enc(),
    {
        let ghost mut acc: Seq<u8> = self.fspec@;
        crate::wire::push_bytes(out, &self.fspec);
        match &self.srl {
            Some(v) => out.push(*v),
            None => (),
        }
        proof {
            match self.srl {
                Some(v) => {
                    crate::wire::lemma_seq_push_is_add(old(out)@ + acc, v);
                    crate::wire::lemma_seq_add_assoc(old(out)@, acc, opt_byte(self.srl));
                },
                None => {
                    crate::wire::lemma_seq_add_empty(acc);
                },
            }
            acc = acc + opt_byte(self.srl);
            assert(out@ == old(out)@ + acc);
        }
        match &self.srr {
            Some(v) => out.push(*v),
            None => (),
        }
        proof {
            match self.srr {
                Some(v) => {
                    crate::wire::lemma_seq_push_is_add(old(out)@ + acc, v);
                    crate::wire::lemma_seq_add_assoc(old(out)@, acc, opt_byte(self.srr));
                },
                None => {
                    crate::wire::lemma_seq_add_empty(acc);
                },
            }
            acc = acc + opt_byte(self.srr);
            assert(out@ == old(out)@ + acc);
        }
        match &self.sam {
            Some(v) => out.push(*v as u8),
            None => (),
        }
        proof {
            match self.sam {
                Some(v) => {
                    crate::wire::lemma_seq_push_is_add(old(out)@ + acc, v as u8);
                    crate::wire::lemma_seq_add_assoc(
                        old(out)@,
                        acc,
                        match self.sam {
                            Some(x) => seq![x as u8],
                            None => Seq::empty(),
                        },
                    );
                },
                None => {
                    crate::wire::lemma_seq_add_empty(acc);
                },
            }
            acc = acc + (match self.sam {
                Some(x) => seq![x as u8],
                None => Seq::empty(),
            });
            assert(out@ == old(out)@ + acc);
        }
        match &self.prl {
            Some(v) => out.push(*v),
            None => (),
        }
        proof {
            match self.prl {
                Some(v) => {
                    crate::wire::lemma_seq_push_is_add(old(out)@ + acc, v);
                    crate::wire::lemma_seq_add_assoc(old(out)@, acc, opt_byte(self.prl));
                },
                None => {
                    crate::wire::lemma_seq_add_empty(acc);
                },
            }
            acc = acc + opt_byte(self.prl);
            assert(out@ == old(out)@ + acc);
        }
        match &self.pam {
            Some(v) => out.push(*v),
            None => (),
        }
        proof {
            match self.pam {
                Some(v) => {
                    crate::wire::lemma_seq_push_is_add(old(out)@ + acc, v);
                    crate::wire::lemma_seq_add_assoc(old(out)@, acc, opt_byte(self.pam));
                },
                None => {
                    crate::wire::lemma_seq_add_empty(acc);
                },
            }
            acc = acc + opt_byte(self.pam);
            assert(out@ == old(out)@ + acc);
        }
        match &self.rpd {
            Some(v) => out.push(*v),
            None => (),
        }
        proof {
            match self.rpd {
                Some(v) => {
                    crate::wire::lemma_seq_push_is_add(old(out)@ + acc, v);
                    crate::wire::lemma_seq_add_assoc(old(out)@, acc, opt_byte(self.rpd));
                },
                None => {
                    crate::wire::lemma_seq_add_empty(acc);
                },
            }
            acc = acc + opt_byte(self.rpd);
            assert(out@ == old(out)@ + acc);
        }
        match &self.apd {
            Some(v) => out.push(*v),
            None => (),
        }
        proof {
            match self.apd {
                Some(v) => {
                    crate::wire::lemma_seq_push_is_add(old(out)@ + acc, v);
                    crate::wire::lemma_seq_add_assoc(old(out)@, acc, opt_byte(self.apd));
                },
                None => {
                    crate::wire::lemma_seq_add_empty(acc);
                },
            }
            acc = acc + opt_byte(self.apd);
            assert(out@ == old(out)@ + acc);
            assert(acc == self.enc());
        }
    }
}

} // verus!
