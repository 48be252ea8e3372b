use asterix::data_item::{TargetReportDescriptor, TimeOfDay};
use asterix::ia5::{ascii_to_ia5, ia5_to_ascii};
use asterix::types::{ERR, FOEFRI, FX, ME, MI, RAB, RDP, SIM, SPI, TST, TYP, XPP};
use asterix::{decode_all, decode_packet, encode_packet, AsterixError};

// tests from https://github.com/wireshark/wireshark/blob/master/test/suite_dissectors/group_asterix.py

#[test]
fn tod_140() {
    let input = [0xa8, 0xbf, 0xff];
    let (item, _) = TimeOfDay::decode(&input, 0, 3).unwrap();
    assert_eq!(item.time as f32 / 128.0, 86_399.99);
}

#[test]
fn target_report_descriptor_020() {
    let input = [
        0xe0 | 0x08 | 0x04 | 0x02 | 0x01,
        0x80 | 0x40 | 0x20 | 0x10 | 0x08 | 0x06,
    ];
    let (item, _) = TargetReportDescriptor::decode(&input, 0, 2).unwrap();
    assert_eq!(item.typ, TYP::ModeSRollCallPlusPSR);
    assert_eq!(item.sim, SIM::ActualTargetReport);
    assert_eq!(item.rdp, RDP::ReportFromRDPChain2);
    assert_eq!(item.spi, SPI::SpecialPositionIdentification);
    assert_eq!(item.rab, RAB::ReportFromFieldMonitor);
    assert_eq!(item.fx1, FX::ExtensionIntoFirstExtent);
    assert_eq!(item.tst, Some(TST::TestTargetReport));
    assert_eq!(item.err, Some(ERR::ExtendedRangePresent));
    assert_eq!(item.xpp, Some(XPP::XPulsePresent));
    assert_eq!(item.me, Some(ME::MilitaryEmergency));
    assert_eq!(item.mi, Some(MI::MilitaryIdentification));
    assert_eq!(item.foe_fri, Some(FOEFRI::NoReply));
}

#[test]
fn ia5_alphabet_round_trip() {
    // the translation is the identity on the alphabet in both orders
    for c in [b' ', b'0', b'5', b'9', b'A', b'M', b'Z'] {
        assert_eq!(ia5_to_ascii(ascii_to_ia5(c)), c);
    }
    // every other character becomes a question mark, in either direction
    assert_eq!(ascii_to_ia5(b'a'), b'?');
    assert_eq!(ascii_to_ia5(0x00), b'?');
    assert_eq!(ascii_to_ia5(b'!'), b'?');
    assert_eq!(ia5_to_ascii(0x1f), b'?');
    assert_eq!(ia5_to_ascii(0x3f), b'?');
    // the defined codes translate as the catalog lists them
    assert_eq!(ia5_to_ascii(0x01), b'A');
    assert_eq!(ia5_to_ascii(0x1a), b'Z');
    assert_eq!(ia5_to_ascii(0x20), b' ');
    assert_eq!(ia5_to_ascii(0x30), b'0');
    assert_eq!(ia5_to_ascii(0x39), b'9');
}

#[test]
fn aircraft_identification_from_ascii() {
    let ident = asterix::data_item::AircraftIdentification::from_ascii(b"DLH65A ");
    assert_eq!(ident.identification(), b"DLH65A ".to_vec());
    // characters outside the alphabet are substituted, the rest kept
    let odd = asterix::data_item::AircraftIdentification::from_ascii(b"dlh65a ");
    assert_eq!(odd.identification(), b"???65? ".to_vec());
}

#[test]
fn decode_all_concatenated_stream() {
    // four Cat-048 packets followed by one Cat-034 packet, back to back
    let cat48 = vec![
        0x30, 0x00, 0x0a, 0x01, 0x01, 0x80, 0x00, 0x00, 0x00, 0x00,
    ];
    let cat34 = vec![
        0x22, 0x00, 0x0b, 0xf0, 0x19, 0x0d, 0x02, 0x35, 0x6d, 0xfa, 0x60,
    ];
    let mut stream: Vec<u8> = Vec::new();
    for _ in 0..4 {
        stream.extend_from_slice(&cat48);
    }
    stream.extend_from_slice(&cat34);

    let packets = decode_all(&stream).unwrap();
    assert_eq!(packets.len(), 5);
    let categories: Vec<u8> = packets.iter().map(|p| p.category).collect();
    assert_eq!(categories, vec![48, 48, 48, 48, 34]);

    // the packets re-encode to exactly the stream
    let mut reencoded: Vec<u8> = Vec::new();
    for p in &packets {
        reencoded.extend_from_slice(&encode_packet(p));
    }
    assert_eq!(reencoded, stream);
}

#[test]
fn decode_errors() {
    // buffer shorter than the header
    assert_eq!(decode_packet(&[0x30]), Err(AsterixError::Underflow));
    // length field smaller than the header itself
    assert_eq!(
        decode_packet(&[0x30, 0x00, 0x02]),
        Err(AsterixError::LengthMismatch)
    );
    // length field beyond the end of the buffer
    assert_eq!(
        decode_packet(&[0x30, 0x00, 0x09, 0x01, 0x01]),
        Err(AsterixError::Underflow)
    );
    // category without a registered codec; the envelope is still skippable
    assert_eq!(
        decode_packet(&[0x99, 0x00, 0x03]),
        Err(AsterixError::UnknownCategory(0x99))
    );
    // a record whose announced item is cut short
    assert_eq!(
        decode_packet(&[0x30, 0x00, 0x05, 0x80, 0x19]),
        Err(AsterixError::Underflow)
    );
    // a defined enum octet outside its closed set: Cat-034 message type 7
    assert_eq!(
        decode_packet(&[0x22, 0x00, 0x05, 0x40, 0x07]),
        Err(AsterixError::InvalidDiscriminant)
    );
    // an FSPEC bit beyond the Cat-048 catalog range (FRN 27)
    assert_eq!(
        decode_packet(&[0x30, 0x00, 0x07, 0x01, 0x01, 0x01, 0x04]),
        Err(AsterixError::FrnOutOfRange)
    );
}

#[test]
fn radar_plot_characteristics_apd_bit() {
    // Radar Plot Characteristics with only the azimuth-difference octet:
    // outer FSPEC asserts FRN 7, the inner presence map asserts bit 0x02
    let bytes = vec![0x30, 0x00, 0x06, 0x02, 0x02, 0x55];
    let (packet, consumed) = decode_packet(&bytes).unwrap();
    assert_eq!(consumed, 6);
    if let asterix::AsterixMessage::Cat48(ref message) = packet.messages[0] {
        let rpc = message.radar_plot_characteristics.as_ref().unwrap();
        assert_eq!(rpc.apd, Some(0x55));
        assert_eq!(rpc.rpd, None);
        assert_eq!(rpc.srl, None);
    } else {
        unreachable!("Message is not CAT48");
    }
    assert_eq!(encode_packet(&packet), bytes);
}

#[test]
fn fspec_round_trip_two_octets() {
    // only FRN 8 (aircraft address) present: a two-octet FSPEC with FX set
    // on the first octet and clear on the second
    let bytes = vec![0x30, 0x00, 0x08, 0x01, 0x80, 0x4b, 0xaa, 0xcd];
    let (mut packet, consumed) = decode_packet(&bytes).unwrap();
    assert_eq!(consumed, 8);
    packet.finalize().unwrap();
    assert_eq!(encode_packet(&packet), bytes);
}
