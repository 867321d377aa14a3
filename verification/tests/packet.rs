use ssm2::{Ssm2, Ssm2Error};

const VALID_PACKET: [u8; 46] = [
    0x80, 0xF0, 0x10, 0x29, 0xFF, 0xA1, 0x10, 0x0D, 0x16, 0x04, 0x69, 0x05, 0x05, 0x61, 0xE4, 0xEB,
    0x80, 0x0A, 0x0A, 0x00, 0x00, 0x00, 0x00, 0x00, 0x70, 0xDE, 0x64, 0xF8, 0xBC, 0x08, 0x00, 0x00,
    0xE0, 0x00, 0x00, 0x00, 0x00, 0x00, 0xDC, 0x00, 0x00, 0x00, 0x80, 0x00, 0x00, 0x61,
];

// calculate_checksum
#[test]
fn test_calculate_checksum() {
    let packet = [0x80, 0xF0, 0x10, 0x03, 0xFF, 0xFF, 0x00];
    assert_eq!(Ssm2::calculate_checksum(&packet), 0x81);
}

// check_packet
#[test]
fn test_check_packet_valid() {
    let packet = [
        0x80, 0xF0, 0x10, 0x29, 0xFF, 0xA1, 0x10, 0x0D, 0x16, 0x04, 0x69, 0x05, 0x05, 0x61,
        0xE4, 0xEB, 0x80, 0x0A, 0x0A, 0x00, 0x00, 0x00, 0x00, 0x00, 0x70, 0xDE, 0x64, 0xF8,
        0xBC, 0x08, 0x00, 0x00, 0xE0, 0x00, 0x00, 0x00, 0x00, 0x00, 0xDC, 0x00, 0x00, 0x00,
        0x80, 0x00, 0x00, 0x61,
    ];
    assert_eq!(Ssm2::check_packet(&packet), packet.len());
}

#[test]
fn test_check_packet_wrong_src_dst() {
    let packet = [0x80, 0x10, 0xF0, 0x01, 0x01, 0x02];
    assert_eq!(Ssm2::check_packet(&packet), 0);
}

#[test]
fn test_check_packet_wrong_length() {
    let packet = [0x80, 0x10, 0xF0, 0x00];
    assert_eq!(Ssm2::check_packet(&packet), 0);
}

#[test]
fn test_check_packet_wrong_data() {
    let packet = [0x80, 0x10, 0xF0, 0x01];
    assert_eq!(Ssm2::check_packet(&packet), 0);
}

#[test]
fn test_check_packet_wrong_check_sum() {
    let packet = [0x80, 0x10, 0xF0, 0x03, 0x01, 0x02, 0x03, 0x00];
    assert_eq!(Ssm2::check_packet(&packet), 0);
}

#[test]
fn checksum_of_nothing_is_zero() {
    assert_eq!(Ssm2::calculate_checksum(&[]), 0);
}

#[test]
fn checksum_wraps_at_a_byte() {
    assert_eq!(Ssm2::calculate_checksum(&[0xFF, 0x01]), 0x00);
    assert_eq!(Ssm2::calculate_checksum(&[0xFF, 0xFF, 0xFF]), 0xFD);
    assert_eq!(Ssm2::calculate_checksum(&[0x7F]), 0x7F);
}

#[test]
fn checksum_of_many_bytes_keeps_the_low_eight_bits() {
    let bytes = vec![0xFFu8; 1000];
    // 1000 * 255 = 255000 = 996 * 256 + 24
    assert_eq!(Ssm2::calculate_checksum(&bytes), 24);
}

#[test]
fn check_packet_accepts_the_shortest_response() {
    // No payload: framing only.
    let packet = [0x80, 0xF0, 0x10, 0x00, 0x80];
    assert_eq!(Ssm2::check_packet(&packet), 5);
}

#[test]
fn check_packet_ignores_what_follows_the_packet() {
    let packet = [0x80, 0xF0, 0x10, 0x02, 0xE8, 0x3C, 0xA6, 0x55, 0x66];
    assert_eq!(Ssm2::check_packet(&packet), 7);
}

#[test]
fn check_packet_refuses_a_length_that_overruns() {
    // Right addresses, but two payload bytes declared and one present.
    let packet = [0x80, 0xF0, 0x10, 0x02, 0xE8, 0xA6];
    assert_eq!(Ssm2::check_packet(&packet), 0);
}

#[test]
fn check_packet_refuses_fewer_bytes_than_the_framing() {
    assert_eq!(Ssm2::check_packet(&[]), 0);
    assert_eq!(Ssm2::check_packet(&[0x80, 0xF0, 0x10, 0x00]), 0);
}

#[test]
fn check_packet_refuses_a_wrong_checksum() {
    let packet = [0x80, 0xF0, 0x10, 0x02, 0xE8, 0x3C, 0xA7];
    assert_eq!(Ssm2::check_packet(&packet), 0);
}

#[test]
fn check_packet_refuses_one_wrong_address() {
    assert_eq!(Ssm2::check_packet(&[0x80, 0xF0, 0xF0, 0x00, 0x60]), 0);
    assert_eq!(Ssm2::check_packet(&[0x80, 0x10, 0x10, 0x00, 0xA0]), 0);
}

#[test]
fn find_accepts_a_valid_packet_whole() {
    assert_eq!(Ssm2::find_valid_packet(&VALID_PACKET), Some((0, VALID_PACKET.len())));
}

#[test]
fn find_rejects_swapped_addresses() {
    assert_eq!(Ssm2::find_valid_packet(&[0x80, 0x10, 0xF0, 0x01, 0x01, 0x02]), None);
}

#[test]
fn find_rejects_a_length_overrun() {
    assert_eq!(Ssm2::find_valid_packet(&[0x80, 0x10, 0xF0, 0x00]), None);
}

#[test]
fn find_rejects_a_bad_checksum() {
    assert_eq!(
        Ssm2::find_valid_packet(&[0x80, 0x10, 0xF0, 0x03, 0x01, 0x02, 0x03, 0x00]),
        None
    );
    assert_eq!(Ssm2::find_valid_packet(&[0x80, 0xF0, 0x10, 0x02, 0xE8, 0x3C, 0xA7]), None);
}

#[test]
fn find_on_an_empty_buffer_finds_nothing() {
    assert_eq!(Ssm2::find_valid_packet(&[]), None);
}

#[test]
fn find_tolerates_noise_before_the_packet() {
    let mut buffer = vec![0x01, 0x02, 0x80];
    buffer.extend_from_slice(&VALID_PACKET);
    assert_eq!(Ssm2::find_valid_packet(&buffer), Some((3, VALID_PACKET.len())));
}

#[test]
fn find_tolerates_noise_without_a_header_byte() {
    let mut buffer = vec![0x00, 0x7F, 0x81, 0xF0, 0x10];
    buffer.extend_from_slice(&[0x80, 0xF0, 0x10, 0x02, 0xE8, 0x3C, 0xA6]);
    buffer.extend_from_slice(&[0x99, 0x80]);
    assert_eq!(Ssm2::find_valid_packet(&buffer), Some((5, 7)));
}

#[test]
fn find_skips_the_echo_of_a_request() {
    // The request as the line echoes it, then the response to it.
    let mut buffer = vec![0x80, 0x10, 0xF0, 0x05, 0xA8, 0x00, 0x00, 0x00, 0x12, 0x3F];
    buffer.extend_from_slice(&[0x80, 0xF0, 0x10, 0x02, 0xE8, 0x3C, 0xA6]);
    assert_eq!(Ssm2::find_valid_packet(&buffer), Some((10, 7)));
}

#[test]
fn find_resumes_at_a_header_byte_inside_a_refused_candidate() {
    // The candidate at index 0 declares more than is there; the packet that
    // is there starts inside it.
    let buffer = [0x80, 0xF0, 0x10, 0xFF, 0x80, 0xF0, 0x10, 0x00, 0x80];
    assert_eq!(Ssm2::find_valid_packet(&buffer), Some((4, 5)));
}

#[test]
fn find_returns_the_first_of_two_packets() {
    let mut buffer = vec![0x80, 0xF0, 0x10, 0x00, 0x80];
    buffer.extend_from_slice(&[0x80, 0xF0, 0x10, 0x02, 0xE8, 0x3C, 0xA6]);
    assert_eq!(Ssm2::find_valid_packet(&buffer), Some((0, 5)));
}

#[test]
fn find_gives_the_same_answer_when_asked_again() {
    let mut buffer = vec![0x01, 0x02, 0x80];
    buffer.extend_from_slice(&VALID_PACKET);
    let first = Ssm2::find_valid_packet(&buffer);
    let second = Ssm2::find_valid_packet(&buffer);
    assert_eq!(first, second);
    assert_eq!(Ssm2::find_valid_packet(&[0x80, 0x10]), Ssm2::find_valid_packet(&[0x80, 0x10]));
}

#[test]
fn encode_init_request() {
    assert_eq!(
        Ssm2::encode_request(0xBF, &[]),
        Ok(vec![0x80, 0x10, 0xF0, 0x01, 0xBF, 0x40])
    );
}

#[test]
fn encode_single_read_request() {
    assert_eq!(
        Ssm2::encode_request(0xA8, &[0x00, 0x00, 0x00, 0x12]),
        Ok(vec![0x80, 0x10, 0xF0, 0x05, 0xA8, 0x00, 0x00, 0x00, 0x12, 0x3F])
    );
}

#[test]
fn encode_refuses_write_commands() {
    assert_eq!(Ssm2::encode_request(0xB0, &[]), Err(Ssm2Error::UnsupportedOperation));
    assert_eq!(Ssm2::encode_request(0xB8, &[]), Err(Ssm2Error::UnsupportedOperation));
    assert_eq!(
        Ssm2::encode_request(0xB0, &[0x00, 0x00, 0x00, 0x12, 0x55]),
        Err(Ssm2Error::UnsupportedOperation)
    );
    assert_eq!(
        Ssm2::encode_request(0xB8, &[0x00, 0x00, 0x00, 0x12, 0x55]),
        Err(Ssm2Error::UnsupportedOperation)
    );
}

#[test]
fn encode_looks_at_the_command_byte_only() {
    // Write opcodes after the command byte are plain data.
    let packet = Ssm2::encode_request(0xA8, &[0xB0, 0xB8]).unwrap();
    assert_eq!(packet, vec![0x80, 0x10, 0xF0, 0x03, 0xA8, 0xB0, 0xB8, 0x93]);
}

#[test]
fn encode_the_longest_payload() {
    let extra = vec![0x01u8; 254];
    let packet = Ssm2::encode_request(0xA8, &extra).unwrap();
    assert_eq!(packet.len(), 260);
    assert_eq!(packet[3], 0xFF);
    assert_eq!(packet[4], 0xA8);
    // 0x80 + 0x10 + 0xF0 + 0xFF + 0xA8 + 254 = 0x327 + 0xFE = 0x425
    assert_eq!(packet[259], 0x25);
    assert_eq!(Ssm2::calculate_checksum(&packet[..259]), packet[259]);
}

#[test]
fn encoded_requests_are_not_taken_for_responses() {
    let packet = Ssm2::encode_request(0xBF, &[]).unwrap();
    assert_eq!(Ssm2::check_packet(&packet), 0);
    assert_eq!(Ssm2::find_valid_packet(&packet), None);
}

#[test]
fn read_packet_returns_the_packet_with_its_framing() {
    let mut buffer = vec![0x01, 0x02, 0x80];
    buffer.extend_from_slice(&[0x80, 0xF0, 0x10, 0x02, 0xE8, 0x3C, 0xA6]);
    buffer.extend_from_slice(&[0x11, 0x22]);
    assert_eq!(
        Ssm2::read_packet(&buffer),
        Ok(vec![0x80, 0xF0, 0x10, 0x02, 0xE8, 0x3C, 0xA6])
    );
}

#[test]
fn read_packet_fails_where_no_packet_is() {
    assert_eq!(Ssm2::read_packet(&[]), Err(Ssm2Error::MalformedResponse));
    assert_eq!(
        Ssm2::read_packet(&[0x80, 0x10, 0xF0, 0x03, 0x01, 0x02, 0x03, 0x00]),
        Err(Ssm2Error::MalformedResponse)
    );
}
