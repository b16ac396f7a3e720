use dns_forwarder::addr::IpAddress;
use dns_forwarder::utils::dns_rcode;
use dns_forwarder::utils::{
    create_dns_error_response, extract_query_id, format_bytes, format_duration,
    format_duration_parts, is_ipv4, is_ipv6, is_valid_dns_message,
};
use std::time::Duration;

#[test]
fn test_format_bytes() {
    assert_eq!(format_bytes(512), "512.00 B");
    assert_eq!(format_bytes(1024), "1.00 KB");
    assert_eq!(format_bytes(1536), "1.50 KB");
    assert_eq!(format_bytes(1048576), "1.00 MB");
}

#[test]
fn test_format_duration() {
    assert_eq!(format_duration(Duration::from_millis(500)), "500ms");
    assert_eq!(format_duration(Duration::from_secs(1)), "1.0s");
    assert_eq!(format_duration(Duration::from_secs(61)), "1m 1s");
    assert_eq!(format_duration(Duration::from_secs(3661)), "1h 1m 1s");
}

#[test]
fn test_dns_message_validation() {
    let valid_dns = vec![0x12, 0x34, 0x01, 0x00, 0x00, 0x01, 0x00, 0x00, 0x00, 0x00, 0x00, 0x00];
    assert!(is_valid_dns_message(&valid_dns));

    let short_msg = vec![0x12, 0x34];
    assert!(!is_valid_dns_message(&short_msg));
}

#[test]
fn test_extract_query_id() {
    let dns_msg = vec![0x12, 0x34, 0x01, 0x00];
    assert_eq!(extract_query_id(&dns_msg), Some(0x1234));

    let short_msg = vec![0x12];
    assert_eq!(extract_query_id(&short_msg), None);
}

#[test]
fn format_bytes_picks_the_unit_and_rounds_to_hundredths() {
    assert_eq!(format_bytes(0), "0.00 B");
    assert_eq!(format_bytes(1023), "1023.00 B");
    assert_eq!(format_bytes(1025), "1.00 KB");
    assert_eq!(format_bytes(1030), "1.01 KB");
    assert_eq!(format_bytes(1048575), "1024.00 KB");
    assert_eq!(format_bytes(1073741824), "1.00 GB");
    assert_eq!(format_bytes(1099511627776), "1.00 TB");
    assert_eq!(format_bytes(1099511627776 * 2048), "2048.00 TB");
}

#[test]
fn format_bytes_rounds_a_tie_to_the_even_hundredth() {
    // 1152 / 1024 = 1.125 and 1176 / 1024 = 1.1484375; 1.135 is no tie in binary.
    assert_eq!(format_bytes(1152), "1.12 KB");
    // 1.375 KB: the hundredth below is odd, so the tie goes up.
    assert_eq!(format_bytes(1408), "1.38 KB");
    assert_eq!(format_bytes(1176), "1.15 KB");
}

#[test]
fn format_duration_uses_the_largest_units_that_fit() {
    assert_eq!(format_duration(Duration::from_millis(0)), "0ms");
    assert_eq!(format_duration(Duration::from_millis(999)), "999ms");
    assert_eq!(format_duration(Duration::from_millis(1234)), "1.2s");
    assert_eq!(format_duration(Duration::from_millis(59_999)), "59.9s");
    assert_eq!(format_duration(Duration::from_secs(60)), "1m 0s");
    assert_eq!(format_duration(Duration::from_millis(61_900)), "1m 1s");
    assert_eq!(format_duration(Duration::from_secs(3600)), "1h 0m 0s");
    assert_eq!(format_duration(Duration::from_secs(86_399)), "23h 59m 59s");
    assert_eq!(format_duration(Duration::from_secs(360_000)), "100h 0m 0s");
}

#[test]
fn format_duration_parts_agrees_with_format_duration() {
    assert_eq!(format_duration_parts(0, 500), "500ms");
    assert_eq!(format_duration_parts(1, 0), "1.0s");
    assert_eq!(format_duration_parts(61, 0), "1m 1s");
    assert_eq!(format_duration_parts(3661, 0), "1h 1m 1s");
    assert_eq!(format_duration_parts(12, 345), "12.3s");
    assert_eq!(
        format_duration_parts(u64::MAX, 0),
        format_duration(Duration::from_secs(u64::MAX))
    );
    assert_eq!(format_duration_parts(u64::MAX, 0), "5124095576030431h 0m 15s");
}

#[test]
fn a_message_is_valid_only_with_a_whole_header_and_a_standard_opcode() {
    let mut message = vec![0u8; 12];
    assert!(is_valid_dns_message(&message));
    assert!(!is_valid_dns_message(&message[..11]));
    // QR and the low flag bits do not matter.
    message[2] = 0x87;
    message[3] = 0xff;
    assert!(is_valid_dns_message(&message));
    // Any opcode but zero is refused: bits 3 to 6 of the third byte.
    for opcode in 1u8..16 {
        message[2] = opcode << 3;
        assert!(!is_valid_dns_message(&message));
    }
    assert!(!is_valid_dns_message(&[]));
}

#[test]
fn the_query_id_is_the_first_two_bytes_in_network_order() {
    assert_eq!(extract_query_id(&[0xab, 0xcd]), Some(0xabcd));
    assert_eq!(extract_query_id(&[0x00, 0x01, 0xff]), Some(1));
    assert_eq!(extract_query_id(&[0xff, 0xff]), Some(0xffff));
    assert_eq!(extract_query_id(&[]), None);
}

#[test]
fn an_error_response_is_a_header_with_the_id_and_the_code() {
    assert_eq!(
        create_dns_error_response(0x1234, dns_rcode::SERVER_FAILURE),
        vec![0x12, 0x34, 0x81, 0x82, 0, 0, 0, 0, 0, 0, 0, 0]
    );
    assert_eq!(
        create_dns_error_response(0xffff, dns_rcode::REFUSED),
        vec![0xff, 0xff, 0x81, 0x85, 0, 0, 0, 0, 0, 0, 0, 0]
    );
    assert_eq!(
        create_dns_error_response(0, dns_rcode::NO_ERROR),
        vec![0, 0, 0x81, 0x80, 0, 0, 0, 0, 0, 0, 0, 0]
    );
    let response = create_dns_error_response(7, dns_rcode::NAME_ERROR);
    assert_eq!(extract_query_id(&response), Some(7));
    assert!(is_valid_dns_message(&response));
}

#[test]
fn response_codes_have_their_standard_values() {
    assert_eq!(dns_rcode::NO_ERROR, 0);
    assert_eq!(dns_rcode::FORMAT_ERROR, 1);
    assert_eq!(dns_rcode::SERVER_FAILURE, 2);
    assert_eq!(dns_rcode::NAME_ERROR, 3);
    assert_eq!(dns_rcode::NOT_IMPLEMENTED, 4);
    assert_eq!(dns_rcode::REFUSED, 5);
}

#[test]
fn an_address_is_of_one_family() {
    let v4 = IpAddress::V4(0x7f00_0001);
    let v6 = IpAddress::V6(1);
    assert!(is_ipv4(&v4));
    assert!(!is_ipv6(&v4));
    assert!(is_ipv6(&v6));
    assert!(!is_ipv4(&v6));
}

#[test]
fn format_bytes_agrees_with_floating_point_formatting() {
    let units = ["B", "KB", "MB", "GB", "TB"];
    let mut samples: Vec<usize> = (0..5000).collect();
    for shift in 10..53 {
        let power = 1usize << shift;
        for delta in [0usize, 1, 2, 3, 5, 127, 128, 129, 511, 512, 513] {
            samples.push(power - delta.min(power));
            samples.push(power + delta);
            samples.push(power + power / 8 + delta);
            samples.push(power + power / 200 + delta);
            samples.push(3 * power + power / 1024 * 5 + delta);
        }
    }
    for bytes in samples {
        let mut size = bytes as f64;
        let mut unit = 0;
        while size >= 1024.0 && unit < units.len() - 1 {
            size /= 1024.0;
            unit += 1;
        }
        assert_eq!(format_bytes(bytes), format!("{:.2} {}", size, units[unit]), "{} bytes", bytes);
    }
}
