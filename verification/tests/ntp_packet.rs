use chrono::{TimeZone, Utc};
use rchronos::ntp::{read_server_reply, NtpPacket};
use rchronos::sync::SyncError;
use rchronos::time::UtcInstant;

fn instant(dt: chrono::DateTime<Utc>) -> UtcInstant {
    UtcInstant::from_timestamp(dt.timestamp(), dt.timestamp_subsec_nanos()).unwrap()
}

#[test]
fn test_ntp_packet_serialization_roundtrip() {
    let packet = NtpPacket {
        li: 1,
        vn: 4,
        mode: 4,
        stratum: 2,
        poll: 6,
        precision: -18,
        root_delay: 1024,
        root_dispersion: 2048,
        reference_id: 123456,
        reference_timestamp: 0xAAAA_BBBB_CCCC_DDDD,
        originate_timestamp: 0x1111_2222_3333_4444,
        receive_timestamp: 0x5555_6666_7777_8888,
        transmit_timestamp: 0x9999_AAAA_BBBB_CCCC,
    };

    let bytes = packet.to_bytes();
    let decoded = NtpPacket::from_bytes(&bytes).unwrap();
    assert_eq!(packet, decoded);
}

#[test]
fn test_ntp_packet_new_client_request() {
    let now = Utc.with_ymd_and_hms(2026, 5, 24, 22, 0, 0).unwrap();
    let packet = NtpPacket::new_client_request(instant(now));

    assert_eq!(packet.li, 0);
    assert_eq!(packet.vn, 3);
    assert_eq!(packet.mode, 3);
    assert_eq!(packet.stratum, 0);

    let decoded_time = packet.parse_transmit_time().unwrap();
    assert_eq!(decoded_time, instant(now));
}

#[test]
fn test_ntp_packet_time_boundary_handling() {
    let now = Utc.with_ymd_and_hms(1970, 1, 1, 0, 0, 0).unwrap();
    let packet = NtpPacket::new_client_request(instant(now));
    let decoded_time = packet.parse_transmit_time().unwrap();
    assert_eq!(decoded_time, instant(now));

    let future_time = Utc.with_ymd_and_hms(2035, 12, 31, 23, 59, 59).unwrap();
    let packet_future = NtpPacket::new_client_request(instant(future_time));
    let decoded_future = packet_future.parse_transmit_time().unwrap();
    assert_eq!(decoded_future, instant(future_time));
}

#[test]
fn test_ntp_packet_fractional_precision() {
    let original_time = instant(Utc::now());
    let packet = NtpPacket::new_client_request(original_time);
    let decoded_time = packet.parse_transmit_time().unwrap();

    let a = original_time.secs as i128 * 1_000_000_000 + original_time.nanos as i128;
    let b = decoded_time.secs as i128 * 1_000_000_000 + decoded_time.nanos as i128;
    let diff_nanos = (a - b).abs();
    assert!(
        diff_nanos <= 1000,
        "NTP conversion accuracy lost sub-second precision. Delta: {}ns",
        diff_nanos
    );
}

#[test]
fn client_request_wire_bytes() {
    let t = UtcInstant { secs: 0, nanos: 500_000_000 };
    let bytes = NtpPacket::new_client_request(t).to_bytes();
    assert_eq!(bytes[0], 0x1B);
    assert_eq!(&bytes[1..40], &[0u8; 39][..]);
    // 1970-01-01 is 2_208_988_800 = 0x83AA7E80 seconds after 1900; half a second is 0x80000000.
    assert_eq!(&bytes[40..48], &[0x83, 0xAA, 0x7E, 0x80, 0x80, 0x00, 0x00, 0x00]);
}

#[test]
fn bytes_decode_and_encode_back() {
    let mut bytes = [0u8; 48];
    for (i, b) in bytes.iter_mut().enumerate() {
        *b = (i as u8).wrapping_mul(37).wrapping_add(11);
    }
    let packet = NtpPacket::from_bytes(&bytes).unwrap();
    assert_eq!(packet.to_bytes(), bytes);
    assert_eq!(packet.li, bytes[0] >> 6);
    assert_eq!(packet.poll, bytes[2] as i8);
    assert_eq!(packet.root_delay, u32::from_be_bytes([bytes[4], bytes[5], bytes[6], bytes[7]]));
}

#[test]
fn server_reply_mode_is_checked() {
    let t = UtcInstant { secs: 1_700_000_000, nanos: 0 };
    let mut reply = NtpPacket::new_client_request(t);
    let err = read_server_reply(&reply.to_bytes()).unwrap_err();
    assert_eq!(err, SyncError::InvalidNtpMode(3));
    assert_eq!(err.message(), "invalid NTP server mode: 3, expected 4");
    reply.mode = 4;
    assert_eq!(read_server_reply(&reply.to_bytes()).unwrap(), t);
}

#[test]
fn timestamp_outside_era_zero_wraps() {
    // 2036-02-07T06:28:16Z is 2^32 seconds after 1900: the era wraps to 1900.
    let t = UtcInstant { secs: 2_085_978_496, nanos: 0 };
    let back = NtpPacket::new_client_request(t).parse_transmit_time().unwrap();
    assert_eq!(back, UtcInstant { secs: -2_208_988_800, nanos: 0 });
    // Before 1900 the seconds wrap into era 0 from the other side.
    let old = UtcInstant { secs: -2_208_988_801, nanos: 0 };
    let back = NtpPacket::new_client_request(old).parse_transmit_time().unwrap();
    assert_eq!(back, UtcInstant { secs: 2_085_978_495, nanos: 0 });
}

#[test]
fn fraction_rounds_down_by_at_most_one_nanosecond() {
    for nanos in [1u32, 999_999_999, 123_456_789, 500_000_000] {
        let t = UtcInstant { secs: 1_000_000_000, nanos };
        let back = NtpPacket::new_client_request(t).parse_transmit_time().unwrap();
        assert_eq!(back.secs, t.secs);
        assert!(back.nanos <= nanos && back.nanos + 1 >= nanos);
    }
}
