//! Closed sets of values for the fixed-width bit fields of the Data Items.
//!
//! Every enum maps to and from its wire bit pattern through `as_bits` (the
//! specification), `to_bits` and `from_bits`. Enums whose bit width admits
//! values outside the defined set decode through an `Option`: a value outside
//! the set is an invalid discriminant.
use vstd::prelude::*;

verus! {

#[derive(Debug, Clone, Copy, PartialEq, Eq, Structural)]
pub enum TYP {
    NoDetection,
    SinglePSRDetection,
    SingleSSRDetection,
    SSRPlusPSRDetection,
    SingleModeSAllCall,
    SingleModeSRollCall,
    ModeSAllCallPlusPSR,
    ModeSRollCallPlusPSR,
}

impl TYP {
    pub open spec fn as_bits(self) -> u8 {
        match self {
            TYP::NoDetection => 0,
            TYP::SinglePSRDetection => 1,
            TYP::SingleSSRDetection => 2,
            TYP::SSRPlusPSRDetection => 3,
            TYP::SingleModeSAllCall => 4,
            TYP::SingleModeSRollCall => 5,
            TYP::ModeSAllCallPlusPSR => 6,
            TYP::ModeSRollCallPlusPSR => 7,
        }
    }

    pub fn to_bits(self) -> (r: u8)
        ensures
            r == self.as_bits(),
    {
        match self {
            TYP::NoDetection => 0,
            TYP::SinglePSRDetection => 1,
            TYP::SingleSSRDetection => 2,
            TYP::SSRPlusPSRDetection => 3,
            TYP::SingleModeSAllCall => 4,
            TYP::SingleModeSRollCall => 5,
            TYP::ModeSAllCallPlusPSR => 6,
            TYP::ModeSRollCallPlusPSR => 7,
        }
    }

    pub fn from_bits(b: u8) -> (r: Self)
        requires
            b < 8,
        ensures
            r.as_bits() == b,
    {
        if b == 0 {
            TYP::NoDetection
        } else if b == 1 {
            TYP::SinglePSRDetection
        } else if b == 2 {
            TYP::SingleSSRDetection
        } else if b == 3 {
            TYP::SSRPlusPSRDetection
        } else if b == 4 {
            TYP::SingleModeSAllCall
        } else if b == 5 {
            TYP::SingleModeSRollCall
        } else if b == 6 {
            TYP::ModeSAllCallPlusPSR
        } else {
            TYP::ModeSRollCallPlusPSR
        }
    }
}

#[derive(Debug, Clone, Copy, PartialEq, Eq, Structural)]
pub enum SIM {
    ActualTargetReport,
    SimulatedTargetReport,
}

impl SIM {
    pub open spec fn as_bits(self) -> u8 {
        match self {
            SIM::ActualTargetReport => 0,
            SIM::SimulatedTargetReport => 1,
        }
    }

    pub fn to_bits(self) -> (r: u8)
        ensures
            r == self.as_bits(),
    {
        match self {
            SIM::ActualTargetReport => 0,
            SIM::SimulatedTargetReport => 1,
        }
    }

    pub fn from_bits(b: u8) -> (r: Self)
        requires
            b < 2,
        ensures
            r.as_bits() == b,
    {
        if b == 0 {
            SIM::ActualTargetReport
        } else {
            SIM::SimulatedTargetReport
        }
    }
}

#[derive(Debug, Clone, Copy, PartialEq, Eq, Structural)]
pub enum RDP {
    ReportFromRDPChain1,
    ReportFromRDPChain2,
}

impl RDP {
    pub open spec fn as_bits(self) -> u8 {
        match self {
            RDP::ReportFromRDPChain1 => 0,
            RDP::ReportFromRDPChain2 => 1,
        }
    }

    pub fn to_bits(self) -> (r: u8)
        ensures
            r == self.as_bits(),
    {
        match self {
            RDP::ReportFromRDPChain1 => 0,
            RDP::ReportFromRDPChain2 => 1,
        }
    }

    pub fn from_bits(b: u8) -> (r: Self)
        requires
            b < 2,
        ensures
            r.as_bits() == b,
    {
        if b == 0 {
            RDP::ReportFromRDPChain1
        } else {
            RDP::ReportFromRDPChain2
        }
    }
}

#[derive(Debug, Clone, Copy, PartialEq, Eq, Structural)]
pub enum SPI {
    AbsenceOfSPI,
    SpecialPositionIdentification,
}

impl SPI {
    pub open spec fn as_bits(self) -> u8 {
        match self {
            SPI::AbsenceOfSPI => 0,
            SPI::SpecialPositionIdentification => 1,
        }
    }

    pub fn to_bits(self) -> (r: u8)
        ensures
            r == self.as_bits(),
    {
        match self {
            SPI::AbsenceOfSPI => 0,
            SPI::SpecialPositionIdentification => 1,
        }
    }

    pub fn from_bits(b: u8) -> (r: Self)
        requires
            b < 2,
        ensures
            r.as_bits() == b,
    {
        if b == 0 {
            SPI::AbsenceOfSPI
        } else {
            SPI::SpecialPositionIdentification
        }
    }
}

#[derive(Debug, Clone, Copy, PartialEq, Eq, Structural)]
pub enum RAB {
    ReportFromAircraftTransponder,
    ReportFromFieldMonitor,
}

impl RAB {
    pub open spec fn as_bits(self) -> u8 {
        match self {
            RAB::ReportFromAircraftTransponder => 0,
            RAB::ReportFromFieldMonitor => 1,
        }
    }

    pub fn to_bits(self) -> (r: u8)
        ensures
            r == self.as_bits(),
    {
        match self {
            RAB::ReportFromAircraftTransponder => 0,
            RAB::ReportFromFieldMonitor => 1,
        }
    }

    pub fn from_bits(b: u8) -> (r: Self)
        requires
            b < 2,
        ensures
            r.as_bits() == b,
    {
        if b == 0 {
            RAB::ReportFromAircraftTransponder
        } else {
            RAB::ReportFromFieldMonitor
        }
    }
}

#[derive(Debug, Clone, Copy, PartialEq, Eq, Structural)]
pub enum FX {
    EndOfDataItem,
    ExtensionIntoFirstExtent,
}

impl FX {
    pub open spec fn as_bits(self) -> u8 {
        match self {
            FX::EndOfDataItem => 0,
            FX::ExtensionIntoFirstExtent => 1,
        }
    }

    pub fn to_bits(self) -> (r: u8)
        ensures
            r == self.as_bits(),
    {
        match self {
            FX::EndOfDataItem => 0,
            FX::ExtensionIntoFirstExtent => 1,
        }
    }

    pub fn from_bits(b: u8) -> (r: Self)
        requires
            b < 2,
        ensures
            r.as_bits() == b,
    {
        if b == 0 {
            FX::EndOfDataItem
        } else {
            FX::ExtensionIntoFirstExtent
        }
    }
}

#[derive(Debug, Clone, Copy, PartialEq, Eq, Structural)]
pub enum V {
    CodeValidated,
    CodeNotValidated,
}

impl V {
    pub open spec fn as_bits(self) -> u8 {
        match self {
            V::CodeValidated => 0,
            V::CodeNotValidated => 1,
        }
    }

    pub fn to_bits(self) -> (r: u8)
        ensures
            r == self.as_bits(),
    {
        match self {
            V::CodeValidated => 0,
            V::CodeNotValidated => 1,
        }
    }

    pub fn from_bits(b: u8) -> (r: Self)
        requires
            b < 2,
        ensures
            r.as_bits() == b,
    {
        if b == 0 {
            V::CodeValidated
        } else {
            V::CodeNotValidated
        }
    }
}

#[derive(Debug, Clone, Copy, PartialEq, Eq, Structural)]
pub enum G {
    Default,
    GarbledCode,
}

impl G {
    pub open spec fn as_bits(self) -> u8 {
        match self {
            G::Default => 0,
            G::GarbledCode => 1,
        }
    }

    pub fn to_bits(self) -> (r: u8)
        ensures
            r == self.as_bits(),
    {
        match self {
            G::Default => 0,
            G::GarbledCode => 1,
        }
    }

    pub fn from_bits(b: u8) -> (r: Self)
        requires
            b < 2,
        ensures
            r.as_bits() == b,
    {
        if b == 0 {
            G::Default
        } else {
            G::GarbledCode
        }
    }
}

#[derive(Debug, Clone, Copy, PartialEq, Eq, Structural)]
pub enum L {
    Mode3CodeDerivedFromTheReplyOfTheTransponder,
    Mode3CodeNotExtractedDuringTheLastScan,
}

impl L {
    pub open spec fn as_bits(self) -> u8 {
        match self {
            L::Mode3CodeDerivedFromTheReplyOfTheTransponder => 0,
            L::Mode3CodeNotExtractedDuringTheLastScan => 1,
        }
    }

    pub fn to_bits(self) -> (r: u8)
        ensures
            r == self.as_bits(),
    {
        match self {
            L::Mode3CodeDerivedFromTheReplyOfTheTransponder => 0,
            L::Mode3CodeNotExtractedDuringTheLastScan => 1,
        }
    }

    pub fn from_bits(b: u8) -> (r: Self)
        requires
            b < 2,
        ensures
            r.as_bits() == b,
    {
        if b == 0 {
            L::Mode3CodeDerivedFromTheReplyOfTheTransponder
        } else {
            L::Mode3CodeNotExtractedDuringTheLastScan
        }
    }
}

#[derive(Debug, Clone, Copy, PartialEq, Eq, Structural)]
pub enum CNF {
    ConfirmedTrack,
    TentativeTrack,
}

impl CNF {
    pub open spec fn as_bits(self) -> u8 {
        match self {
            CNF::ConfirmedTrack => 0,
            CNF::TentativeTrack => 1,
        }
    }

    pub fn to_bits(self) -> (r: u8)
        ensures
            r == self.as_bits(),
    {
        match self {
            CNF::ConfirmedTrack => 0,
            CNF::TentativeTrack => 1,
        }
    }

    pub fn from_bits(b: u8) -> (r: Self)
        requires
            b < 2,
        ensures
            r.as_bits() == b,
    {
        if b == 0 {
            CNF::ConfirmedTrack
        } else {
            CNF::TentativeTrack
        }
    }
}

#[derive(Debug, Clone, Copy, PartialEq, Eq, Structural)]
pub enum RAD {
    CombinedTrack,
    PSRTrack,
    SSRModeSTrack,
    Invalid,
}

impl RAD {
    pub open spec fn as_bits(self) -> u8 {
        match self {
            RAD::CombinedTrack => 0,
            RAD::PSRTrack => 1,
            RAD::SSRModeSTrack => 2,
            RAD::Invalid => 3,
        }
    }

    pub fn to_bits(self) -> (r: u8)
        ensures
            r == self.as_bits(),
    {
        match self {
            RAD::CombinedTrack => 0,
            RAD::PSRTrack => 1,
            RAD::SSRModeSTrack => 2,
            RAD::Invalid => 3,
        }
    }

    pub fn from_bits(b: u8) -> (r: Self)
        requires
            b < 4,
        ensures
            r.as_bits() == b,
    {
        if b == 0 {
            RAD::CombinedTrack
        } else if b == 1 {
            RAD::PSRTrack
        } else if b == 2 {
            RAD::SSRModeSTrack
        } else {
            RAD::Invalid
        }
    }
}

#[derive(Debug, Clone, Copy, PartialEq, Eq, Structural)]
pub enum DOU {
    NormalConfidence,
    LowConfidence,
}

impl DOU {
    pub open spec fn as_bits(self) -> u8 {
        match self {
            DOU::NormalConfidence => 0,
            DOU::LowConfidence => 1,
        }
    }

    pub fn to_bits(self) -> (r: u8)
        ensures
            r == self.as_bits(),
    {
        match self {
            DOU::NormalConfidence => 0,
            DOU::LowConfidence => 1,
        }
    }

    pub fn from_bits(b: u8) -> (r: Self)
        requires
            b < 2,
        ensures
            r.as_bits() == b,
    {
        if b == 0 {
            DOU::NormalConfidence
        } else {
            DOU::LowConfidence
        }
    }
}

#[derive(Debug, Clone, Copy, PartialEq, Eq, Structural)]
pub enum MAH {
    NoHorizontalManSensed,
    HorizontalManSensed,
}

impl MAH {
    pub open spec fn as_bits(self) -> u8 {
        match self {
            MAH::NoHorizontalManSensed => 0,
            MAH::HorizontalManSensed => 1,
        }
    }

    pub fn to_bits(self) -> (r: u8)
        ensures
            r == self.as_bits(),
    {
        match self {
            MAH::NoHorizontalManSensed => 0,
            MAH::HorizontalManSensed => 1,
        }
    }

    pub fn from_bits(b: u8) -> (r: Self)
        requires
            b < 2,
        ensures
            r.as_bits() == b,
    {
        if b == 0 {
            MAH::NoHorizontalManSensed
        } else {
            MAH::HorizontalManSensed
        }
    }
}

#[derive(Debug, Clone, Copy, PartialEq, Eq, Structural)]
pub enum CDM {
    Maintaining,
    Climbing,
    Descending,
    Unknown,
}

impl CDM {
    pub open spec fn as_bits(self) -> u8 {
        match self {
            CDM::Maintaining => 0,
            CDM::Climbing => 1,
            CDM::Descending => 2,
            CDM::Unknown => 3,
        }
    }

    pub fn to_bits(self) -> (r: u8)
        ensures
            r == self.as_bits(),
    {
        match self {
            CDM::Maintaining => 0,
            CDM::Climbing => 1,
            CDM::Descending => 2,
            CDM::Unknown => 3,
        }
    }

    pub fn from_bits(b: u8) -> (r: Self)
        requires
            b < 4,
        ensures
            r.as_bits() == b,
    {
        if b == 0 {
            CDM::Maintaining
        } else if b == 1 {
            CDM::Climbing
        } else if b == 2 {
            CDM::Descending
        } else {
            CDM::Unknown
        }
    }
}

#[derive(Debug, Clone, Copy, PartialEq, Eq, Structural)]
pub enum TRE {
    TrackStillAlive,
    EndOfTrackLifetime,
}

impl TRE {
    pub open spec fn as_bits(self) -> u8 {
        match self {
            TRE::TrackStillAlive => 0,
            TRE::EndOfTrackLifetime => 1,
        }
    }

    pub fn to_bits(self) -> (r: u8)
        ensures
            r == self.as_bits(),
    {
        match self {
            TRE::TrackStillAlive => 0,
            TRE::EndOfTrackLifetime => 1,
        }
    }

    pub fn from_bits(b: u8) -> (r: Self)
        requires
            b < 2,
        ensures
            r.as_bits() == b,
    {
        if b == 0 {
            TRE::TrackStillAlive
        } else {
            TRE::EndOfTrackLifetime
        }
    }
}

#[derive(Debug, Clone, Copy, PartialEq, Eq, Structural)]
pub enum GHO {
    TrueTargetTrack,
    GhostTargetTrack,
}

impl GHO {
    pub open spec fn as_bits(self) -> u8 {
        match self {
            GHO::TrueTargetTrack => 0,
            GHO::GhostTargetTrack => 1,
        }
    }

    pub fn to_bits(self) -> (r: u8)
        ensures
            r == self.as_bits(),
    {
        match self {
            GHO::TrueTargetTrack => 0,
            GHO::GhostTargetTrack => 1,
        }
    }

    pub fn from_bits(b: u8) -> (r: Self)
        requires
            b < 2,
        ensures
            r.as_bits() == b,
    {
        if b == 0 {
            GHO::TrueTargetTrack
        } else {
            GHO::GhostTargetTrack
        }
    }
}

#[derive(Debug, Clone, Copy, PartialEq, Eq, Structural)]
pub enum SUP {
    No,
    Yes,
}

impl SUP {
    pub open spec fn as_bits(self) -> u8 {
        match self {
            SUP::No => 0,
            SUP::Yes => 1,
        }
    }

    pub fn to_bits(self) -> (r: u8)
        ensures
            r == self.as_bits(),
    {
        match self {
            SUP::No => 0,
            SUP::Yes => 1,
        }
    }

    pub fn from_bits(b: u8) -> (r: Self)
        requires
            b < 2,
        ensures
            r.as_bits() == b,
    {
        if b == 0 {
            SUP::No
        } else {
            SUP::Yes
        }
    }
}

#[derive(Debug, Clone, Copy, PartialEq, Eq, Structural)]
pub enum TCC {
    RadarPlanePlotTransformation,
    SlantRangePlotTransformation,
}

impl TCC {
    pub open spec fn as_bits(self) -> u8 {
        match self {
            TCC::RadarPlanePlotTransformation => 0,
            TCC::SlantRangePlotTransformation => 1,
        }
    }

    pub fn to_bits(self) -> (r: u8)
        ensures
            r == self.as_bits(),
    {
        match self {
            TCC::RadarPlanePlotTransformation => 0,
            TCC::SlantRangePlotTransformation => 1,
        }
    }

    pub fn from_bits(b: u8) -> (r: Self)
        requires
            b < 2,
        ensures
            r.as_bits() == b,
    {
        if b == 0 {
            TCC::RadarPlanePlotTransformation
        } else {
            TCC::SlantRangePlotTransformation
        }
    }
}

/// Communications capability of the transponder. Values 5 through 7 are not
/// assigned; they are kept verbatim so that re-encoding reproduces them.
#[derive(Debug, Clone, Copy, PartialEq, Eq, Structural)]
pub enum COM {
    NoCommunicationsSurveillanceOnly,
    CommACommB,
    CommACommBUplinkELM,
    CommACommBUplinkELMDownlinkELM,
    Top5TransponderCapability,
    NoAssigned(u8),
}

impl COM {
    pub open spec fn as_bits(self) -> u8 {
        match self {
            COM::NoCommunicationsSurveillanceOnly => 0,
            COM::CommACommB => 1,
            COM::CommACommBUplinkELM => 2,
            COM::CommACommBUplinkELMDownlinkELM => 3,
            COM::Top5TransponderCapability => 4,
            COM::NoAssigned(x) => x,
        }
    }

    pub open spec fn wf(self) -> bool {
        match self {
            COM::NoAssigned(x) => 5 <= x <= 7,
            _ => true,
        }
    }

    pub fn to_bits(self) -> (r: u8)
        ensures
            r == self.as_bits(),
    {
        match self {
            COM::NoCommunicationsSurveillanceOnly => 0,
            COM::CommACommB => 1,
            COM::CommACommBUplinkELM => 2,
            COM::CommACommBUplinkELMDownlinkELM => 3,
            COM::Top5TransponderCapability => 4,
            COM::NoAssigned(x) => x,
        }
    }

    pub fn from_bits(b: u8) -> (r: Self)
        requires
            b < 8,
        ensures
            r.as_bits() == b,
            r.wf(),
    {
        if b == 0 {
            COM::NoCommunicationsSurveillanceOnly
        } else if b == 1 {
            COM::CommACommB
        } else if b == 2 {
            COM::CommACommBUplinkELM
        } else if b == 3 {
            COM::CommACommBUplinkELMDownlinkELM
        } else if b == 4 {
            COM::Top5TransponderCapability
        } else {
            COM::NoAssigned(b)
        }
    }
}

#[derive(Debug, Clone, Copy, PartialEq, Eq, Structural)]
pub enum STAT {
    NoAlertNoSPIAircraftAirborne,
    NoAlertNoSPIAircraftOnGround,
    AlertNoSPIAircraftAirborne,
    AlertNoSPIAircraftOnGround,
    AlertSPIAircraftAirborneOrOnGround,
    NoAlertSPIAircraftAirborneOrOnGround,
    NotAssigned,
    Unknown,
}

impl STAT {
    pub open spec fn as_bits(self) -> u8 {
        match self {
            STAT::NoAlertNoSPIAircraftAirborne => 0,
            STAT::NoAlertNoSPIAircraftOnGround => 1,
            STAT::AlertNoSPIAircraftAirborne => 2,
            STAT::AlertNoSPIAircraftOnGround => 3,
            STAT::AlertSPIAircraftAirborneOrOnGround => 4,
            STAT::NoAlertSPIAircraftAirborneOrOnGround => 5,
            STAT::NotAssigned => 6,
            STAT::Unknown => 7,
        }
    }

    pub fn to_bits(self) -> (r: u8)
        ensures
            r == self.as_bits(),
    {
        match self {
            STAT::NoAlertNoSPIAircraftAirborne => 0,
            STAT::NoAlertNoSPIAircraftOnGround => 1,
            STAT::AlertNoSPIAircraftAirborne => 2,
            STAT::AlertNoSPIAircraftOnGround => 3,
            STAT::AlertSPIAircraftAirborneOrOnGround => 4,
            STAT::NoAlertSPIAircraftAirborneOrOnGround => 5,
            STAT::NotAssigned => 6,
            STAT::Unknown => 7,
        }
    }

    pub fn from_bits(b: u8) -> (r: Self)
        requires
            b < 8,
        ensures
            r.as_bits() == b,
    {
        if b == 0 {
            STAT::NoAlertNoSPIAircraftAirborne
        } else if b == 1 {
            STAT::NoAlertNoSPIAircraftOnGround
        } else if b == 2 {
            STAT::AlertNoSPIAircraftAirborne
        } else if b == 3 {
            STAT::AlertNoSPIAircraftOnGround
        } else if b == 4 {
            STAT::AlertSPIAircraftAirborneOrOnGround
        } else if b == 5 {
            STAT::NoAlertSPIAircraftAirborneOrOnGround
        } else if b == 6 {
            STAT::NotAssigned
        } else {
            STAT::Unknown
        }
    }
}

#[derive(Debug, Clone, Copy, PartialEq, Eq, Structural)]
pub enum SI {
    SICodeCapable,
    IICodeCapable,
}

impl SI {
    pub open spec fn as_bits(self) -> u8 {
        match self {
            SI::SICodeCapable => 0,
            SI::IICodeCapable => 1,
        }
    }

    pub fn to_bits(self) -> (r: u8)
        ensures
            r == self.as_bits(),
    {
        match self {
            SI::SICodeCapable => 0,
            SI::IICodeCapable => 1,
        }
    }

    pub fn from_bits(b: u8) -> (r: Self)
        requires
            b < 2,
        ensures
            r.as_bits() == b,
    {
        if b == 0 {
            SI::SICodeCapable
        } else {
            SI::IICodeCapable
        }
    }
}

#[derive(Debug, Clone, Copy, PartialEq, Eq, Structural)]
pub enum MSSC {
    No,
    Yes,
}

impl MSSC {
    pub open spec fn as_bits(self) -> u8 {
        match self {
            MSSC::No => 0,
            MSSC::Yes => 1,
        }
    }

    pub fn to_bits(self) -> (r: u8)
        ensures
            r == self.as_bits(),
    {
        match self {
            MSSC::No => 0,
            MSSC::Yes => 1,
        }
    }

    pub fn from_bits(b: u8) -> (r: Self)
        requires
            b < 2,
        ensures
            r.as_bits() == b,
    {
        if b == 0 {
            MSSC::No
        } else {
            MSSC::Yes
        }
    }
}

#[derive(Debug, Clone, Copy, PartialEq, Eq, Structural)]
pub enum ARC {
    Resolution100ft,
    Resolution25ft,
}

impl ARC {
    pub open spec fn as_bits(self) -> u8 {
        match self {
            ARC::Resolution100ft => 0,
            ARC::Resolution25ft => 1,
        }
    }

    pub fn to_bits(self) -> (r: u8)
        ensures
            r == self.as_bits(),
    {
        match self {
            ARC::Resolution100ft => 0,
            ARC::Resolution25ft => 1,
        }
    }

    pub fn from_bits(b: u8) -> (r: Self)
        requires
            b < 2,
        ensures
            r.as_bits() == b,
    {
        if b == 0 {
            ARC::Resolution100ft
        } else {
            ARC::Resolution25ft
        }
    }
}

#[derive(Debug, Clone, Copy, PartialEq, Eq, Structural)]
pub enum AIC {
    No,
    Yes,
}

impl AIC {
    pub open spec fn as_bits(self) -> u8 {
        match self {
            AIC::No => 0,
            AIC::Yes => 1,
        }
    }

    pub fn to_bits(self) -> (r: u8)
        ensures
            r == self.as_bits(),
    {
        match self {
            AIC::No => 0,
            AIC::Yes => 1,
        }
    }

    pub fn from_bits(b: u8) -> (r: Self)
        requires
            b < 2,
        ensures
            r.as_bits() == b,
    {
        if b == 0 {
            AIC::No
        } else {
            AIC::Yes
        }
    }
}

/// Message type of a category 034 service message. The full octet admits
/// values outside the defined set; those are invalid discriminants.
#[derive(Debug, Clone, Copy, PartialEq, Eq, Structural)]
pub enum MTYPE {
    NorthMarker,
    SectorCrossing,
    GeographicaFiltering,
    JammingStrobe,
}

impl MTYPE {
    pub open spec fn as_bits(self) -> u8 {
        match self {
            MTYPE::NorthMarker => 1,
            MTYPE::SectorCrossing => 2,
            MTYPE::GeographicaFiltering => 3,
            MTYPE::JammingStrobe => 4,
        }
    }

    /// The octet values that name a defined message type.
    pub open spec fn valid_bits(b: u8) -> bool {
        1 <= b <= 4
    }

    pub fn to_bits(self) -> (r: u8)
        ensures
            r == self.as_bits(),
    {
        match self {
            MTYPE::NorthMarker => 1,
            MTYPE::SectorCrossing => 2,
            MTYPE::GeographicaFiltering => 3,
            MTYPE::JammingStrobe => 4,
        }
    }

    pub fn from_bits(b: u8) -> (r: Option<Self>)
        ensures
            r matches Some(t) ==> t.as_bits() == b,
            r is Some <==> Self::valid_bits(b),
    {
        if b == 1 {
            Some(MTYPE::NorthMarker)
        } else if b == 2 {
            Some(MTYPE::SectorCrossing)
        } else if b == 3 {
            Some(MTYPE::GeographicaFiltering)
        } else if b == 4 {
            Some(MTYPE::JammingStrobe)
        } else {
            None
        }
    }
}

/// Warning/error condition code: a seven-bit value. Codes 37 through 63 are
/// allocated for AMG use and 64 through 127 for manufacturers; those carry
/// their raw value.
#[derive(Debug, Clone, Copy, PartialEq, Eq, Structural)]
pub enum CODE {
    NotDefined,
    MultipathReply,
    ReplySidelobeInterrogationReception,
    SplitPlot,
    SecondTimeAroundReply,
    Angel,
    SlowMovingTarget,
    FixedPSRPlot,
    SlowPSRPlot,
    LowQualityPSRPlot,
    PhantomSSRPlot,
    NonMatchingMode3ACode,
    ModeCCodeModeSAbnormal,
    TargetInClutter,
    MaximumDopplerREsponseInZeroFilter,
    TransponderAnomalyDetected,
    DuplicatedOrIllegalModeSAircraftAddress,
    ModeSErrorCorrectionApplied,
    UndecodableModeCSCode,
    Birds,
    FlockOfBirds,
    Mode1PresentOriginalReply,
    Mode2PresentOriginalReply,
    PlotCausedByWindTurbine,
    Helicopter,
    MaxiumumNumberInterrogationsSurveillance,
    MaxiumumNumberInterrogationsBDS,
    BDSOverlayIncoherence,
    PotentialBDSSwapDetected,
    TrackUpdateZenithalGap,
    ModeSTrackReAquired,
    DuplicatedMode5PairNoPinDetected,
    WrongDFReplyFormatDetected,
    TransponderAnomalyMs,
    TransponderAnomalySI,
    PotentialICConflict,
    ICConflictDetectionPossible,
    AMGAllocated(u16),
    Manufacturer(u16),
}

impl CODE {
    pub open spec fn as_bits(self) -> u8 {
        match self {
            CODE::NotDefined => 0,
            CODE::MultipathReply => 1,
            CODE::ReplySidelobeInterrogationReception => 2,
            CODE::SplitPlot => 3,
            CODE::SecondTimeAroundReply => 4,
            CODE::Angel => 5,
            CODE::SlowMovingTarget => 6,
            CODE::FixedPSRPlot => 7,
            CODE::SlowPSRPlot => 8,
            CODE::LowQualityPSRPlot => 9,
            CODE::PhantomSSRPlot => 10,
            CODE::NonMatchingMode3ACode => 11,
            CODE::ModeCCodeModeSAbnormal => 12,
            CODE::TargetInClutter => 13,
            CODE::MaximumDopplerREsponseInZeroFilter => 14,
            CODE::TransponderAnomalyDetected => 15,
            CODE::DuplicatedOrIllegalModeSAircraftAddress => 16,
            CODE::ModeSErrorCorrectionApplied => 17,
            CODE::UndecodableModeCSCode => 18,
            CODE::Birds => 19,
            CODE::FlockOfBirds => 20,
            CODE::Mode1PresentOriginalReply => 21,
            CODE::Mode2PresentOriginalReply => 22,
            CODE::PlotCausedByWindTurbine => 23,
            CODE::Helicopter => 24,
            CODE::MaxiumumNumberInterrogationsSurveillance => 25,
            CODE::MaxiumumNumberInterrogationsBDS => 26,
            CODE::BDSOverlayIncoherence => 27,
            CODE::PotentialBDSSwapDetected => 28,
            CODE::TrackUpdateZenithalGap => 29,
            CODE::ModeSTrackReAquired => 30,
            CODE::DuplicatedMode5PairNoPinDetected => 31,
            CODE::WrongDFReplyFormatDetected => 32,
            CODE::TransponderAnomalyMs => 33,
            CODE::TransponderAnomalySI => 34,
            CODE::PotentialICConflict => 35,
            CODE::ICConflictDetectionPossible => 36,
            CODE::AMGAllocated(x) => x as u8,
            CODE::Manufacturer(x) => x as u8,
        }
    }

    pub open spec fn wf(self) -> bool {
        match self {
            CODE::AMGAllocated(x) => 37 <= x <= 63,
            CODE::Manufacturer(x) => 64 <= x <= 127,
            _ => true,
        }
    }

    pub fn to_bits(self) -> (r: u8)
        requires
            self.wf(),
        ensures
            r == self.as_bits(),
    {
        match self {
            CODE::NotDefined => 0,
            CODE::MultipathReply => 1,
            CODE::ReplySidelobeInterrogationReception => 2,
            CODE::SplitPlot => 3,
            CODE::SecondTimeAroundReply => 4,
            CODE::Angel => 5,
            CODE::SlowMovingTarget => 6,
            CODE::FixedPSRPlot => 7,
            CODE::SlowPSRPlot => 8,
            CODE::LowQualityPSRPlot => 9,
            CODE::PhantomSSRPlot => 10,
            CODE::NonMatchingMode3ACode => 11,
            CODE::ModeCCodeModeSAbnormal => 12,
            CODE::TargetInClutter => 13,
            CODE::MaximumDopplerREsponseInZeroFilter => 14,
            CODE::TransponderAnomalyDetected => 15,
            CODE::DuplicatedOrIllegalModeSAircraftAddress => 16,
            CODE::ModeSErrorCorrectionApplied => 17,
            CODE::UndecodableModeCSCode => 18,
            CODE::Birds => 19,
            CODE::FlockOfBirds => 20,
            CODE::Mode1PresentOriginalReply => 21,
            CODE::Mode2PresentOriginalReply => 22,
            CODE::PlotCausedByWindTurbine => 23,
            CODE::Helicopter => 24,
            CODE::MaxiumumNumberInterrogationsSurveillance => 25,
            CODE::MaxiumumNumberInterrogationsBDS => 26,
            CODE::BDSOverlayIncoherence => 27,
            CODE::PotentialBDSSwapDetected => 28,
            CODE::TrackUpdateZenithalGap => 29,
            CODE::ModeSTrackReAquired => 30,
            CODE::DuplicatedMode5PairNoPinDetected => 31,
            CODE::WrongDFReplyFormatDetected => 32,
            CODE::TransponderAnomalyMs => 33,
            CODE::TransponderAnomalySI => 34,
            CODE::PotentialICConflict => 35,
            CODE::ICConflictDetectionPossible => 36,
            CODE::AMGAllocated(x) => x as u8,
            CODE::Manufacturer(x) => x as u8,
        }
    }

    pub fn from_bits(b: u8) -> (r: Self)
        requires
            b < 128,
        ensures
            r.as_bits() == b,
            r.wf(),
    {
        if b == 0 {
            CODE::NotDefined
        } else if b == 1 {
            CODE::MultipathReply
        } else if b == 2 {
            CODE::ReplySidelobeInterrogationReception
        } else if b == 3 {
            CODE::SplitPlot
        } else if b == 4 {
            CODE::SecondTimeAroundReply
        } else if b == 5 {
            CODE::Angel
        } else if b == 6 {
            CODE::SlowMovingTarget
        } else if b == 7 {
            CODE::FixedPSRPlot
        } else if b == 8 {
            CODE::SlowPSRPlot
        } else if b == 9 {
            CODE::LowQualityPSRPlot
        } else if b == 10 {
            CODE::PhantomSSRPlot
        } else if b == 11 {
            CODE::NonMatchingMode3ACode
        } else if b == 12 {
            CODE::ModeCCodeModeSAbnormal
        } else if b == 13 {
            CODE::TargetInClutter
        } else if b == 14 {
            CODE::MaximumDopplerREsponseInZeroFilter
        } else if b == 15 {
            CODE::TransponderAnomalyDetected
        } else if b == 16 {
            CODE::DuplicatedOrIllegalModeSAircraftAddress
        } else if b == 17 {
            CODE::ModeSErrorCorrectionApplied
        } else if b == 18 {
            CODE::UndecodableModeCSCode
        } else if b == 19 {
            CODE::Birds
        } else if b == 20 {
            CODE::FlockOfBirds
        } else if b == 21 {
            CODE::Mode1PresentOriginalReply
        } else if b == 22 {
            CODE::Mode2PresentOriginalReply
        } else if b == 23 {
            CODE::PlotCausedByWindTurbine
        } else if b == 24 {
            CODE::Helicopter
        } else if b == 25 {
            CODE::MaxiumumNumberInterrogationsSurveillance
        } else if b == 26 {
            CODE::MaxiumumNumberInterrogationsBDS
        } else if b == 27 {
            CODE::BDSOverlayIncoherence
        } else if b == 28 {
            CODE::PotentialBDSSwapDetected
        } else if b == 29 {
            CODE::TrackUpdateZenithalGap
        } else if b == 30 {
            CODE::ModeSTrackReAquired
        } else if b == 31 {
            CODE::DuplicatedMode5PairNoPinDetected
        } else if b == 32 {
            CODE::WrongDFReplyFormatDetected
        } else if b == 33 {
            CODE::TransponderAnomalyMs
        } else if b == 34 {
            CODE::TransponderAnomalySI
        } else if b == 35 {
            CODE::PotentialICConflict
        } else if b == 36 {
            CODE::ICConflictDetectionPossible
        } else if b <= 63 {
            CODE::AMGAllocated(b as u16)
        } else {
            CODE::Manufacturer(b as u16)
        }
    }
}

#[derive(Debug, Clone, Copy, PartialEq, Eq, Structural)]
pub enum D {
    Valid,
    Doubtful,
}

impl D {
    pub open spec fn as_bits(self) -> u8 {
        match self {
            D::Valid => 0,
            D::Doubtful => 1,
        }
    }

    pub fn to_bits(self) -> (r: u8)
        ensures
            r == self.as_bits(),
    {
        match self {
            D::Valid => 0,
            D::Doubtful => 1,
        }
    }

    pub fn from_bits(b: u8) -> (r: Self)
        requires
            b < 2,
        ensures
            r.as_bits() == b,
    {
        if b == 0 {
            D::Valid
        } else {
            D::Doubtful
        }
    }
}

/// Operational release status of the system.
#[derive(Debug, Clone, Copy, PartialEq, Eq, Structural)]
pub enum NOGO {
    SystemIsReleasedForOperationalUse,
    OperationalUseOfSystemIsInhibited,
}

impl NOGO {
    pub open spec fn as_bits(self) -> u8 {
        match self {
            NOGO::SystemIsReleasedForOperationalUse => 0,
            NOGO::OperationalUseOfSystemIsInhibited => 1,
        }
    }

    pub fn to_bits(self) -> (r: u8)
        ensures
            r == self.as_bits(),
    {
        match self {
            NOGO::SystemIsReleasedForOperationalUse => 0,
            NOGO::OperationalUseOfSystemIsInhibited => 1,
        }
    }

    pub fn from_bits(b: u8) -> (r: Self)
        requires
            b < 2,
        ensures
            r.as_bits() == b,
    {
        if b == 0 {
            NOGO::SystemIsReleasedForOperationalUse
        } else {
            NOGO::OperationalUseOfSystemIsInhibited
        }
    }
}

/// Radar data processor chain selection status.
#[derive(Debug, Clone, Copy, PartialEq, Eq, Structural)]
pub enum RDPC {
    RDPC1Selected,
    RDPC2Selected,
}

impl RDPC {
    pub open spec fn as_bits(self) -> u8 {
        match self {
            RDPC::RDPC1Selected => 0,
            RDPC::RDPC2Selected => 1,
        }
    }

    pub fn to_bits(self) -> (r: u8)
        ensures
            r == self.as_bits(),
    {
        match self {
            RDPC::RDPC1Selected => 0,
            RDPC::RDPC2Selected => 1,
        }
    }

    pub fn from_bits(b: u8) -> (r: Self)
        requires
            b < 2,
        ensures
            r.as_bits() == b,
    {
        if b == 0 {
            RDPC::RDPC1Selected
        } else {
            RDPC::RDPC2Selected
        }
    }
}

/// Event to signal a reset of the selected radar data processor chain.
#[derive(Debug, Clone, Copy, PartialEq, Eq, Structural)]
pub enum RDPR {
    DefaultSituation,
    ResetOfRDPC,
}

impl RDPR {
    pub open spec fn as_bits(self) -> u8 {
        match self {
            RDPR::DefaultSituation => 0,
            RDPR::ResetOfRDPC => 1,
        }
    }

    pub fn to_bits(self) -> (r: u8)
        ensures
            r == self.as_bits(),
    {
        match self {
            RDPR::DefaultSituation => 0,
            RDPR::ResetOfRDPC => 1,
        }
    }

    pub fn from_bits(b: u8) -> (r: Self)
        requires
            b < 2,
        ensures
            r.as_bits() == b,
    {
        if b == 0 {
            RDPR::DefaultSituation
        } else {
            RDPR::ResetOfRDPC
        }
    }
}

/// Monitoring system connection status.
#[derive(Debug, Clone, Copy, PartialEq, Eq, Structural)]
pub enum MSC {
    MonitoringSystemConnected,
    MonitoringSystemDisconnected,
}

impl MSC {
    pub open spec fn as_bits(self) -> u8 {
        match self {
            MSC::MonitoringSystemConnected => 0,
            MSC::MonitoringSystemDisconnected => 1,
        }
    }

    pub fn to_bits(self) -> (r: u8)
        ensures
            r == self.as_bits(),
    {
        match self {
            MSC::MonitoringSystemConnected => 0,
            MSC::MonitoringSystemDisconnected => 1,
        }
    }

    pub fn from_bits(b: u8) -> (r: Self)
        requires
            b < 2,
        ensures
            r.as_bits() == b,
    {
        if b == 0 {
            MSC::MonitoringSystemConnected
        } else {
            MSC::MonitoringSystemDisconnected
        }
    }
}

/// Time source validity.
#[derive(Debug, Clone, Copy, PartialEq, Eq, Structural)]
pub enum TSV {
    Valid,
    Invalid,
}

impl TSV {
    pub open spec fn as_bits(self) -> u8 {
        match self {
            TSV::Valid => 0,
            TSV::Invalid => 1,
        }
    }

    pub fn to_bits(self) -> (r: u8)
        ensures
            r == self.as_bits(),
    {
        match self {
            TSV::Valid => 0,
            TSV::Invalid => 1,
        }
    }

    pub fn from_bits(b: u8) -> (r: Self)
        requires
            b < 2,
        ensures
            r.as_bits() == b,
    {
        if b == 0 {
            TSV::Valid
        } else {
            TSV::Invalid
        }
    }
}

/// Selected antenna.
#[derive(Debug, Clone, Copy, PartialEq, Eq, Structural)]
pub enum ANT {
    Antenna1,
    Antenna2,
}

impl ANT {
    pub open spec fn as_bits(self) -> u8 {
        match self {
            ANT::Antenna1 => 0,
            ANT::Antenna2 => 1,
        }
    }

    pub fn to_bits(self) -> (r: u8)
        ensures
            r == self.as_bits(),
    {
        match self {
            ANT::Antenna1 => 0,
            ANT::Antenna2 => 1,
        }
    }

    pub fn from_bits(b: u8) -> (r: Self)
        requires
            b < 2,
        ensures
            r.as_bits() == b,
    {
        if b == 0 {
            ANT::Antenna1
        } else {
            ANT::Antenna2
        }
    }
}

/// Channel A/B selection status.
#[derive(Debug, Clone, Copy, PartialEq, Eq, Structural)]
pub enum CHAB {
    NoChannelSelected,
    ChannelAOnlySelected,
    ChannelBOnlySelected,
    DiversityMode,
}

impl CHAB {
    pub open spec fn as_bits(self) -> u8 {
        match self {
            CHAB::NoChannelSelected => 0,
            CHAB::ChannelAOnlySelected => 1,
            CHAB::ChannelBOnlySelected => 2,
            CHAB::DiversityMode => 3,
        }
    }

    pub fn to_bits(self) -> (r: u8)
        ensures
            r == self.as_bits(),
    {
        match self {
            CHAB::NoChannelSelected => 0,
            CHAB::ChannelAOnlySelected => 1,
            CHAB::ChannelBOnlySelected => 2,
            CHAB::DiversityMode => 3,
        }
    }

    pub fn from_bits(b: u8) -> (r: Self)
        requires
            b < 4,
        ensures
            r.as_bits() == b,
    {
        if b == 0 {
            CHAB::NoChannelSelected
        } else if b == 1 {
            CHAB::ChannelAOnlySelected
        } else if b == 2 {
            CHAB::ChannelBOnlySelected
        } else {
            CHAB::DiversityMode
        }
    }
}

/// Overload condition.
#[derive(Debug, Clone, Copy, PartialEq, Eq, Structural)]
pub enum OVL {
    NoOverload,
    Overload,
}

impl OVL {
    pub open spec fn as_bits(self) -> u8 {
        match self {
            OVL::NoOverload => 0,
            OVL::Overload => 1,
        }
    }

    pub fn to_bits(self) -> (r: u8)
        ensures
            r == self.as_bits(),
    {
        match self {
            OVL::NoOverload => 0,
            OVL::Overload => 1,
        }
    }

    pub fn from_bits(b: u8) -> (r: Self)
        requires
            b < 2,
        ensures
            r.as_bits() == b,
    {
        if b == 0 {
            OVL::NoOverload
        } else {
            OVL::Overload
        }
    }
}

/// Channel A/B selection status for the surveillance coordination function.
#[derive(Debug, Clone, Copy, PartialEq, Eq, Structural)]
pub enum SCF {
    ChannelAInUse,
    ChannelBInUse,
}

impl SCF {
    pub open spec fn as_bits(self) -> u8 {
        match self {
            SCF::ChannelAInUse => 0,
            SCF::ChannelBInUse => 1,
        }
    }

    pub fn to_bits(self) -> (r: u8)
        ensures
            r == self.as_bits(),
    {
        match self {
            SCF::ChannelAInUse => 0,
            SCF::ChannelBInUse => 1,
        }
    }

    pub fn from_bits(b: u8) -> (r: Self)
        requires
            b < 2,
        ensures
            r.as_bits() == b,
    {
        if b == 0 {
            SCF::ChannelAInUse
        } else {
            SCF::ChannelBInUse
        }
    }
}

/// Channel A/B selection status for the data link function.
#[derive(Debug, Clone, Copy, PartialEq, Eq, Structural)]
pub enum DLF {
    ChannelAInUse,
    ChannelBInUse,
}

impl DLF {
    pub open spec fn as_bits(self) -> u8 {
        match self {
            DLF::ChannelAInUse => 0,
            DLF::ChannelBInUse => 1,
        }
    }

    pub fn to_bits(self) -> (r: u8)
        ensures
            r == self.as_bits(),
    {
        match self {
            DLF::ChannelAInUse => 0,
            DLF::ChannelBInUse => 1,
        }
    }

    pub fn from_bits(b: u8) -> (r: Self)
        requires
            b < 2,
        ensures
            r.as_bits() == b,
    {
        if b == 0 {
            DLF::ChannelAInUse
        } else {
            DLF::ChannelBInUse
        }
    }
}

/// Load reduction step in use.
#[derive(Debug, Clone, Copy, PartialEq, Eq, Structural)]
pub enum RED {
    NoReductionActive,
    ReductionStep1Active,
    ReductionStep2Active,
    ReductionStep3Active,
    ReductionStep4Active,
    ReductionStep5Active,
    ReductionStep6Active,
    ReductionStep7Active,
}

impl RED {
    pub open spec fn as_bits(self) -> u8 {
        match self {
            RED::NoReductionActive => 0,
            RED::ReductionStep1Active => 1,
            RED::ReductionStep2Active => 2,
            RED::ReductionStep3Active => 3,
            RED::ReductionStep4Active => 4,
            RED::ReductionStep5Active => 5,
            RED::ReductionStep6Active => 6,
            RED::ReductionStep7Active => 7,
        }
    }

    pub fn to_bits(self) -> (r: u8)
        ensures
            r == self.as_bits(),
    {
        match self {
            RED::NoReductionActive => 0,
            RED::ReductionStep1Active => 1,
            RED::ReductionStep2Active => 2,
            RED::ReductionStep3Active => 3,
            RED::ReductionStep4Active => 4,
            RED::ReductionStep5Active => 5,
            RED::ReductionStep6Active => 6,
            RED::ReductionStep7Active => 7,
        }
    }

    pub fn from_bits(b: u8) -> (r: Self)
        requires
            b < 8,
        ensures
            r.as_bits() == b,
    {
        if b == 0 {
            RED::NoReductionActive
        } else if b == 1 {
            RED::ReductionStep1Active
        } else if b == 2 {
            RED::ReductionStep2Active
        } else if b == 3 {
            RED::ReductionStep3Active
        } else if b == 4 {
            RED::ReductionStep4Active
        } else if b == 5 {
            RED::ReductionStep5Active
        } else if b == 6 {
            RED::ReductionStep6Active
        } else {
            RED::ReductionStep7Active
        }
    }
}

/// Polarization in use by the primary surveillance radar.
#[derive(Debug, Clone, Copy, PartialEq, Eq, Structural)]
pub enum POL {
    LinearPolarization,
    CircularPolarization,
}

impl POL {
    pub open spec fn as_bits(self) -> u8 {
        match self {
            POL::LinearPolarization => 0,
            POL::CircularPolarization => 1,
        }
    }

    pub fn to_bits(self) -> (r: u8)
        ensures
            r == self.as_bits(),
    {
        match self {
            POL::LinearPolarization => 0,
            POL::CircularPolarization => 1,
        }
    }

    pub fn from_bits(b: u8) -> (r: Self)
        requires
            b < 2,
        ensures
            r.as_bits() == b,
    {
        if b == 0 {
            POL::LinearPolarization
        } else {
            POL::CircularPolarization
        }
    }
}

/// Sensitivity time control map in use.
#[derive(Debug, Clone, Copy, PartialEq, Eq, Structural)]
pub enum STC {
    STCMap1,
    STCMap2,
    STCMap3,
    STCMap4,
}

impl STC {
    pub open spec fn as_bits(self) -> u8 {
        match self {
            STC::STCMap1 => 0,
            STC::STCMap2 => 1,
            STC::STCMap3 => 2,
            STC::STCMap4 => 3,
        }
    }

    pub fn to_bits(self) -> (r: u8)
        ensures
            r == self.as_bits(),
    {
        match self {
            STC::STCMap1 => 0,
            STC::STCMap2 => 1,
            STC::STCMap3 => 2,
            STC::STCMap4 => 3,
        }
    }

    pub fn from_bits(b: u8) -> (r: Self)
        requires
            b < 4,
        ensures
            r.as_bits() == b,
    {
        if b == 0 {
            STC::STCMap1
        } else if b == 1 {
            STC::STCMap2
        } else if b == 2 {
            STC::STCMap3
        } else {
            STC::STCMap4
        }
    }
}

/// Cluster state of the Mode S sensor.
#[derive(Debug, Clone, Copy, PartialEq, Eq, Structural)]
pub enum CLU {
    Autonomous,
    NotAutonomous,
}

impl CLU {
    pub open spec fn as_bits(self) -> u8 {
        match self {
            CLU::Autonomous => 0,
            CLU::NotAutonomous => 1,
        }
    }

    pub fn to_bits(self) -> (r: u8)
        ensures
            r == self.as_bits(),
    {
        match self {
            CLU::Autonomous => 0,
            CLU::NotAutonomous => 1,
        }
    }

    pub fn from_bits(b: u8) -> (r: Self)
        requires
            b < 2,
        ensures
            r.as_bits() == b,
    {
        if b == 0 {
            CLU::Autonomous
        } else {
            CLU::NotAutonomous
        }
    }
}

/// Kind of report counted by a message counter. A five-bit field whose
/// values beyond the defined set are invalid discriminants.
#[derive(Debug, Clone, Copy, PartialEq, Eq, Structural)]
pub enum MessageCounterTYP {
    NoDetection,
    SinglePSRTargetReports,
    SingleSSRTargetReports,
    SSRPSRTargetReports,
    SingleAllCallTargetReports,
    SingleRollCallTargetReports,
    AllCallPSRModeSTargetReports,
    RollCallPSRModeSTargetReports,
    FilterForWeatherData,
    FilterForJammingStrobe,
    FilterPSRData,
    FilterSSRModeSData,
    FilterSSRModeSPSRData,
    FilterForEnhancedSuveillanceData,
    FilterForPSREnhancedSurveillance,
    FilterForPSREnhancedSurveillancePlusSSRModeSDataNotInAreaOfPrimeInterest,
    FilterForPSREnhancedSurveillancePlusAllSSRModeSData,
}

impl MessageCounterTYP {
    pub open spec fn as_bits(self) -> u8 {
        match self {
            MessageCounterTYP::NoDetection => 0,
            MessageCounterTYP::SinglePSRTargetReports => 1,
            MessageCounterTYP::SingleSSRTargetReports => 2,
            MessageCounterTYP::SSRPSRTargetReports => 3,
            MessageCounterTYP::SingleAllCallTargetReports => 4,
            MessageCounterTYP::SingleRollCallTargetReports => 5,
            MessageCounterTYP::AllCallPSRModeSTargetReports => 6,
            MessageCounterTYP::RollCallPSRModeSTargetReports => 7,
            MessageCounterTYP::FilterForWeatherData => 8,
            MessageCounterTYP::FilterForJammingStrobe => 9,
            MessageCounterTYP::FilterPSRData => 10,
            MessageCounterTYP::FilterSSRModeSData => 11,
            MessageCounterTYP::FilterSSRModeSPSRData => 12,
            MessageCounterTYP::FilterForEnhancedSuveillanceData => 13,
            MessageCounterTYP::FilterForPSREnhancedSurveillance => 14,
            MessageCounterTYP::FilterForPSREnhancedSurveillancePlusSSRModeSDataNotInAreaOfPrimeInterest => 15,
            MessageCounterTYP::FilterForPSREnhancedSurveillancePlusAllSSRModeSData => 16,
        }
    }

    /// The five-bit values that name a defined counter type.
    pub open spec fn valid_bits(b: u8) -> bool {
        b <= 16
    }

    pub fn to_bits(self) -> (r: u8)
        ensures
            r == self.as_bits(),
    {
        match self {
            MessageCounterTYP::NoDetection => 0,
            MessageCounterTYP::SinglePSRTargetReports => 1,
            MessageCounterTYP::SingleSSRTargetReports => 2,
            MessageCounterTYP::SSRPSRTargetReports => 3,
            MessageCounterTYP::SingleAllCallTargetReports => 4,
            MessageCounterTYP::SingleRollCallTargetReports => 5,
            MessageCounterTYP::AllCallPSRModeSTargetReports => 6,
            MessageCounterTYP::RollCallPSRModeSTargetReports => 7,
            MessageCounterTYP::FilterForWeatherData => 8,
            MessageCounterTYP::FilterForJammingStrobe => 9,
            MessageCounterTYP::FilterPSRData => 10,
            MessageCounterTYP::FilterSSRModeSData => 11,
            MessageCounterTYP::FilterSSRModeSPSRData => 12,
            MessageCounterTYP::FilterForEnhancedSuveillanceData => 13,
            MessageCounterTYP::FilterForPSREnhancedSurveillance => 14,
            MessageCounterTYP::FilterForPSREnhancedSurveillancePlusSSRModeSDataNotInAreaOfPrimeInterest => 15,
            MessageCounterTYP::FilterForPSREnhancedSurveillancePlusAllSSRModeSData => 16,
        }
    }

    pub fn from_bits(b: u8) -> (r: Option<Self>)
        ensures
            r matches Some(t) ==> t.as_bits() == b,
            r is Some <==> Self::valid_bits(b),
    {
        if b == 0 {
            Some(MessageCounterTYP::NoDetection)
        } else if b == 1 {
            Some(MessageCounterTYP::SinglePSRTargetReports)
        } else if b == 2 {
            Some(MessageCounterTYP::SingleSSRTargetReports)
        } else if b == 3 {
            Some(MessageCounterTYP::SSRPSRTargetReports)
        } else if b == 4 {
            Some(MessageCounterTYP::SingleAllCallTargetReports)
        } else if b == 5 {
            Some(MessageCounterTYP::SingleRollCallTargetReports)
        } else if b == 6 {
            Some(MessageCounterTYP::AllCallPSRModeSTargetReports)
        } else if b == 7 {
            Some(MessageCounterTYP::RollCallPSRModeSTargetReports)
        } else if b == 8 {
            Some(MessageCounterTYP::FilterForWeatherData)
        } else if b == 9 {
            Some(MessageCounterTYP::FilterForJammingStrobe)
        } else if b == 10 {
            Some(MessageCounterTYP::FilterPSRData)
        } else if b == 11 {
            Some(MessageCounterTYP::FilterSSRModeSData)
        } else if b == 12 {
            Some(MessageCounterTYP::FilterSSRModeSPSRData)
        } else if b == 13 {
            Some(MessageCounterTYP::FilterForEnhancedSuveillanceData)
        } else if b == 14 {
            Some(MessageCounterTYP::FilterForPSREnhancedSurveillance)
        } else if b == 15 {
            Some(
                MessageCounterTYP::FilterForPSREnhancedSurveillancePlusSSRModeSDataNotInAreaOfPrimeInterest,
            )
        } else if b == 16 {
            Some(MessageCounterTYP::FilterForPSREnhancedSurveillancePlusAllSSRModeSData)
        } else {
            None
        }
    }
}

/// Data filter type of category 034. A full octet whose values beyond the
/// defined set are invalid discriminants.
#[derive(Debug, Clone, Copy, PartialEq, Eq, Structural)]
pub enum DataFilterTYP {
    InvalidValue,
    FilterWeatherData,
    FilterJammingStrobe,
    FilterPSRData,
    FilterSSRModeSData,
    FilterSSRModeSPSRData,
    EnhancedSurveillanceData,
    FilterPSREnhancedSurveillanceData,
    FilterPSREnhancedSurveillanceSSRModeSDataNotInAreaOfPrimeInterest,
    FilterPSREnhancedSurveillanceAllSSRModeSData,
}

impl DataFilterTYP {
    pub open spec fn as_bits(self) -> u8 {
        match self {
            DataFilterTYP::InvalidValue => 0,
            DataFilterTYP::FilterWeatherData => 1,
            DataFilterTYP::FilterJammingStrobe => 2,
            DataFilterTYP::FilterPSRData => 3,
            DataFilterTYP::FilterSSRModeSData => 4,
            DataFilterTYP::FilterSSRModeSPSRData => 5,
            DataFilterTYP::EnhancedSurveillanceData => 6,
            DataFilterTYP::FilterPSREnhancedSurveillanceData => 7,
            DataFilterTYP::FilterPSREnhancedSurveillanceSSRModeSDataNotInAreaOfPrimeInterest => 8,
            DataFilterTYP::FilterPSREnhancedSurveillanceAllSSRModeSData => 9,
        }
    }

    /// The octet values that name a defined filter type.
    pub open spec fn valid_bits(b: u8) -> bool {
        b <= 9
    }

    pub fn to_bits(self) -> (r: u8)
        ensures
            r == self.as_bits(),
    {
        match self {
            DataFilterTYP::InvalidValue => 0,
            DataFilterTYP::FilterWeatherData => 1,
            DataFilterTYP::FilterJammingStrobe => 2,
            DataFilterTYP::FilterPSRData => 3,
            DataFilterTYP::FilterSSRModeSData => 4,
            DataFilterTYP::FilterSSRModeSPSRData => 5,
            DataFilterTYP::EnhancedSurveillanceData => 6,
            DataFilterTYP::FilterPSREnhancedSurveillanceData => 7,
            DataFilterTYP::FilterPSREnhancedSurveillanceSSRModeSDataNotInAreaOfPrimeInterest => 8,
            DataFilterTYP::FilterPSREnhancedSurveillanceAllSSRModeSData => 9,
        }
    }

    pub fn from_bits(b: u8) -> (r: Option<Self>)
        ensures
            r matches Some(t) ==> t.as_bits() == b,
            r is Some <==> Self::valid_bits(b),
    {
        if b == 0 {
            Some(DataFilterTYP::InvalidValue)
        } else if b == 1 {
            Some(DataFilterTYP::FilterWeatherData)
        } else if b == 2 {
            Some(DataFilterTYP::FilterJammingStrobe)
        } else if b == 3 {
            Some(DataFilterTYP::FilterPSRData)
        } else if b == 4 {
            Some(DataFilterTYP::FilterSSRModeSData)
        } else if b == 5 {
            Some(DataFilterTYP::FilterSSRModeSPSRData)
        } else if b == 6 {
            Some(DataFilterTYP::EnhancedSurveillanceData)
        } else if b == 7 {
            Some(DataFilterTYP::FilterPSREnhancedSurveillanceData)
        } else if b == 8 {
            Some(DataFilterTYP::FilterPSREnhancedSurveillanceSSRModeSDataNotInAreaOfPrimeInterest)
        } else if b == 9 {
            Some(DataFilterTYP::FilterPSREnhancedSurveillanceAllSSRModeSData)
        } else {
            None
        }
    }
}

#[derive(Debug, Clone, Copy, PartialEq, Eq, Structural)]
pub enum TST {
    RealTargetReport,
    TestTargetReport,
}

impl TST {
    pub open spec fn as_bits(self) -> u8 {
        match self {
            TST::RealTargetReport => 0,
            TST::TestTargetReport => 1,
        }
    }

    pub fn to_bits(self) -> (r: u8)
        ensures
            r == self.as_bits(),
    {
        match self {
            TST::RealTargetReport => 0,
            TST::TestTargetReport => 1,
        }
    }

    pub fn from_bits(b: u8) -> (r: Self)
        requires
            b < 2,
        ensures
            r.as_bits() == b,
    {
        if b == 0 {
            TST::RealTargetReport
        } else {
            TST::TestTargetReport
        }
    }
}

#[derive(Debug, Clone, Copy, PartialEq, Eq, Structural)]
pub enum ERR {
    NoExtendedRange,
    ExtendedRangePresent,
}

impl ERR {
    pub open spec fn as_bits(self) -> u8 {
        match self {
            ERR::NoExtendedRange => 0,
            ERR::ExtendedRangePresent => 1,
        }
    }

    pub fn to_bits(self) -> (r: u8)
        ensures
            r == self.as_bits(),
    {
        match self {
            ERR::NoExtendedRange => 0,
            ERR::ExtendedRangePresent => 1,
        }
    }

    pub fn from_bits(b: u8) -> (r: Self)
        requires
            b < 2,
        ensures
            r.as_bits() == b,
    {
        if b == 0 {
            ERR::NoExtendedRange
        } else {
            ERR::ExtendedRangePresent
        }
    }
}

#[derive(Debug, Clone, Copy, PartialEq, Eq, Structural)]
pub enum XPP {
    NoXPulsePresent,
    XPulsePresent,
}

impl XPP {
    pub open spec fn as_bits(self) -> u8 {
        match self {
            XPP::NoXPulsePresent => 0,
            XPP::XPulsePresent => 1,
        }
    }

    pub fn to_bits(self) -> (r: u8)
        ensures
            r == self.as_bits(),
    {
        match self {
            XPP::NoXPulsePresent => 0,
            XPP::XPulsePresent => 1,
        }
    }

    pub fn from_bits(b: u8) -> (r: Self)
        requires
            b < 2,
        ensures
            r.as_bits() == b,
    {
        if b == 0 {
            XPP::NoXPulsePresent
        } else {
            XPP::XPulsePresent
        }
    }
}

#[derive(Debug, Clone, Copy, PartialEq, Eq, Structural)]
pub enum ME {
    NoMilitaryEmergency,
    MilitaryEmergency,
}

impl ME {
    pub open spec fn as_bits(self) -> u8 {
        match self {
            ME::NoMilitaryEmergency => 0,
            ME::MilitaryEmergency => 1,
        }
    }

    pub fn to_bits(self) -> (r: u8)
        ensures
            r == self.as_bits(),
    {
        match self {
            ME::NoMilitaryEmergency => 0,
            ME::MilitaryEmergency => 1,
        }
    }

    pub fn from_bits(b: u8) -> (r: Self)
        requires
            b < 2,
        ensures
            r.as_bits() == b,
    {
        if b == 0 {
            ME::NoMilitaryEmergency
        } else {
            ME::MilitaryEmergency
        }
    }
}

#[derive(Debug, Clone, Copy, PartialEq, Eq, Structural)]
pub enum MI {
    NoMilitaryIdentification,
    MilitaryIdentification,
}

impl MI {
    pub open spec fn as_bits(self) -> u8 {
        match self {
            MI::NoMilitaryIdentification => 0,
            MI::MilitaryIdentification => 1,
        }
    }

    pub fn to_bits(self) -> (r: u8)
        ensures
            r == self.as_bits(),
    {
        match self {
            MI::NoMilitaryIdentification => 0,
            MI::MilitaryIdentification => 1,
        }
    }

    pub fn from_bits(b: u8) -> (r: Self)
        requires
            b < 2,
        ensures
            r.as_bits() == b,
    {
        if b == 0 {
            MI::NoMilitaryIdentification
        } else {
            MI::MilitaryIdentification
        }
    }
}

#[derive(Debug, Clone, Copy, PartialEq, Eq, Structural)]
pub enum FOEFRI {
    NoMode4Interrogation,
    FriendlyTarget,
    UnknownTarget,
    NoReply,
}

impl FOEFRI {
    pub open spec fn as_bits(self) -> u8 {
        match self {
            FOEFRI::NoMode4Interrogation => 0,
            FOEFRI::FriendlyTarget => 1,
            FOEFRI::UnknownTarget => 2,
            FOEFRI::NoReply => 3,
        }
    }

    pub fn to_bits(self) -> (r: u8)
        ensures
            r == self.as_bits(),
    {
        match self {
            FOEFRI::NoMode4Interrogation => 0,
            FOEFRI::FriendlyTarget => 1,
            FOEFRI::UnknownTarget => 2,
            FOEFRI::NoReply => 3,
        }
    }

    pub fn from_bits(b: u8) -> (r: Self)
        requires
            b < 4,
        ensures
            r.as_bits() == b,
    {
        if b == 0 {
            FOEFRI::NoMode4Interrogation
        } else if b == 1 {
            FOEFRI::FriendlyTarget
        } else if b == 2 {
            FOEFRI::UnknownTarget
        } else {
            FOEFRI::NoReply
        }
    }
}

} // verus!
