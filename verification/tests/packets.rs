use seg_fs::packets::{DataPacket, HeaderPacket, TransferError};

#[test]
fn data_packet_decode() {
    // Buffers which are too small
    assert!(DataPacket::decode(&[]).is_err());
    assert!(DataPacket::decode(&[1]).is_err());
    assert!(DataPacket::decode(&[5]).is_err());
    assert!(DataPacket::decode(&[6]).is_err());
    assert!(DataPacket::decode(&[0]).is_err());

    // Buffers which contain header packets
    assert!(DataPacket::decode(&[6, 5]).is_err());
    assert!(DataPacket::decode(&[0, 5, b't', b'e', b's', b't']).is_err());

    // Buffers which do not carry any payload
    assert!(DataPacket::decode(&[0, 5, 0, 0]).is_err());

    // Valid buffers
    assert_eq!(
        DataPacket::decode(&[3, 42, 0, 0, b'h', b'e', b'l', b'l', b'o']).unwrap(),
        DataPacket {
            is_last: true,
            file_id: 42,
            packet_number: 0,
            data: vec![b'h', b'e', b'l', b'l', b'o']
        }
    );
    assert_eq!(
        DataPacket::decode(&[65, 0xaa, 0xaa, 0x55, 0, 1, 2, 3, 4, 5]).unwrap(),
        DataPacket {
            is_last: false,
            file_id: 0xaa,
            packet_number: 0xaa55,
            data: vec![0, 1, 2, 3, 4, 5]
        }
    );
}

#[test]
fn header_packet_decode() {
    // Buffers which are too small
    assert!(HeaderPacket::decode(&[]).is_err());
    assert!(HeaderPacket::decode(&[1]).is_err());
    assert!(HeaderPacket::decode(&[5]).is_err());
    assert!(HeaderPacket::decode(&[6]).is_err());
    assert!(HeaderPacket::decode(&[0]).is_err());

    // Buffers which contain data packets
    assert!(HeaderPacket::decode(&[65, 0xaa, 0xaa, 0x55, 0, 1, 2, 3, 4, 5]).is_err());
    assert!(HeaderPacket::decode(&[3, 42, 0, 0, b'h', b'e', b'l', b'l', b'o']).is_err());

    // Buffers which do not contain a file name
    assert!(HeaderPacket::decode(&[0, 5]).is_err());

    // Buffers which are not valid utf8
    assert!(HeaderPacket::decode(&[0, 5, 0xff]).is_err());

    // Valid buffers
    assert_eq!(
        HeaderPacket::decode(&[0, 5, b't', b'e', b's', b't']).unwrap(),
        HeaderPacket {
            file_id: 5,
            name: String::from("test")
        }
    );
}

#[test]
fn header_decode_error_kinds() {
    assert_eq!(HeaderPacket::decode(&[]).unwrap_err(), TransferError::TooShort);
    assert_eq!(HeaderPacket::decode(&[0]).unwrap_err(), TransferError::TooShort);
    assert_eq!(
        HeaderPacket::decode(&[1, 5, b'a']).unwrap_err(),
        TransferError::WrongClass
    );
    assert_eq!(
        HeaderPacket::decode(&[0, 5]).unwrap_err(),
        TransferError::EmptyContent
    );
    assert_eq!(
        HeaderPacket::decode(&[0, 5, 0xff, 0xfe]).unwrap_err(),
        TransferError::InvalidEncoding
    );
}

#[test]
fn data_decode_error_kinds() {
    assert_eq!(DataPacket::decode(&[]).unwrap_err(), TransferError::TooShort);
    assert_eq!(DataPacket::decode(&[1, 5, 0]).unwrap_err(), TransferError::TooShort);
    // Wrong class wins over a missing payload once the four fixed bytes are there.
    assert_eq!(
        DataPacket::decode(&[0, 5, 0, 0]).unwrap_err(),
        TransferError::WrongClass
    );
    assert_eq!(
        DataPacket::decode(&[1, 5, 0, 0]).unwrap_err(),
        TransferError::EmptyContent
    );
}

#[test]
fn header_decode_multibyte_utf8() {
    // A two-byte UTF-8 encoding must come back as one character, not as the
    // raw bytes.
    let packet = HeaderPacket::decode(&[0, 9, 0xc3, 0xa9]).unwrap();
    assert_eq!(packet.file_id, 9);
    assert_eq!(packet.name, String::from("\u{e9}"));
    assert_eq!(packet.name.chars().count(), 1);
}

#[test]
fn data_decode_packet_number_big_endian() {
    let packet = DataPacket::decode(&[1, 7, 0x01, 0x02, 9]).unwrap();
    assert_eq!(packet.packet_number, 0x0102);
    assert!(!packet.is_last);
    assert_eq!(packet.data, vec![9]);
}
