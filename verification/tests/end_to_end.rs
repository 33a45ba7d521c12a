use ipv4_subnet::binary_subnet_str_to_base10_octets;
use ipv4_subnet::binary_subnet_str_to_octets;
use ipv4_subnet::octets_to_binary_num_str;
use ipv4_subnet::parse_user_cidr_input;
use ipv4_subnet::subnet_calcs;
use ipv4_subnet::ParseError;

#[derive(PartialEq)]
struct TestCase {
    user_input: String,
    expected_output: ExpectedOutput,
}

#[derive(PartialEq)]
struct ExpectedOutput {
    network_ip: String,
    host_min_ip: String,
    host_max_ip: String,
    broadcast_ip: String,
}

fn case(input: &str, network: &str, min: &str, max: &str, broadcast: &str) -> TestCase {
    TestCase {
        user_input: input.to_string(),
        expected_output: ExpectedOutput {
            network_ip: network.to_string(),
            host_min_ip: min.to_string(),
            host_max_ip: max.to_string(),
            broadcast_ip: broadcast.to_string(),
        },
    }
}

#[test]
fn test_end_to_end() {
    let test_cases = [
        TestCase {
            user_input: "132.155.18.152/9".to_string(),
            expected_output: ExpectedOutput {
                network_ip: "132.128.0.0".to_string(),
                host_min_ip: "132.128.0.1".to_string(),
                host_max_ip: "132.255.255.254".to_string(),
                broadcast_ip: "132.255.255.255".to_string(),
            },
        },
        TestCase {
            user_input: "149.59.23.77/17".to_string(),
            expected_output: ExpectedOutput {
                network_ip: "149.59.0.0".to_string(),
                host_min_ip: "149.59.0.1".to_string(),
                host_max_ip: "149.59.127.254".to_string(),
                broadcast_ip: "149.59.127.255".to_string(),
            },
        },
        TestCase {
            user_input: "0.255.0.255/1".to_string(),
            expected_output: ExpectedOutput {
                network_ip: "0.0.0.0".to_string(),
                host_min_ip: "0.0.0.1".to_string(),
                host_max_ip: "127.255.255.254".to_string(),
                broadcast_ip: "127.255.255.255".to_string(),
            },
        },
        TestCase {
            user_input: "191.62.124.195/30".to_string(),
            expected_output: ExpectedOutput {
                network_ip: "191.62.124.192".to_string(),
                host_min_ip: "191.62.124.193".to_string(),
                host_max_ip: "191.62.124.194".to_string(),
                broadcast_ip: "191.62.124.195".to_string(),
            },
        },
    ];
    for test_case in test_cases.iter() {
        let (octets, cidr) = parse_user_cidr_input(&test_case.user_input).unwrap();
        let (network_ip_str, min_ip_str, max_ip_str, broadcast_ip_str) =
            subnet_calcs(&octets, cidr.into());
        assert_eq!(
            binary_subnet_str_to_base10_octets(&network_ip_str),
            test_case.expected_output.network_ip,
        );
        assert_eq!(
            binary_subnet_str_to_base10_octets(&min_ip_str),
            test_case.expected_output.host_min_ip,
        );
        assert_eq!(
            binary_subnet_str_to_base10_octets(&max_ip_str),
            test_case.expected_output.host_max_ip,
        );
        assert_eq!(
            binary_subnet_str_to_base10_octets(&broadcast_ip_str),
            test_case.expected_output.broadcast_ip,
        );
    }
}

#[test]
fn end_to_end_widest_and_narrowest() {
    let test_cases = [
        case("10.20.30.40/0", "0.0.0.0", "0.0.0.1", "255.255.255.254", "255.255.255.255"),
        case("10.20.30.40/31", "10.20.30.40", "10.20.30.41", "10.20.30.40", "10.20.30.41"),
        case("10.20.30.41/32", "10.20.30.41", "10.20.30.41", "10.20.30.41", "10.20.30.41"),
        case("255.255.255.255/32", "255.255.255.255", "255.255.255.255", "255.255.255.255",
            "255.255.255.255"),
        case("0.0.0.0/32", "0.0.0.0", "0.0.0.0", "0.0.0.0", "0.0.0.0"),
        case("192.168.1.1/22", "192.168.0.0", "192.168.0.1", "192.168.3.254", "192.168.3.255"),
    ];
    for test_case in test_cases.iter() {
        let (octets, cidr) = parse_user_cidr_input(&test_case.user_input).unwrap();
        let (network, min, max, broadcast) = subnet_calcs(&octets, cidr);
        assert_eq!(binary_subnet_str_to_base10_octets(&network), test_case.expected_output.network_ip);
        assert_eq!(binary_subnet_str_to_base10_octets(&min), test_case.expected_output.host_min_ip);
        assert_eq!(binary_subnet_str_to_base10_octets(&max), test_case.expected_output.host_max_ip);
        assert_eq!(
            binary_subnet_str_to_base10_octets(&broadcast),
            test_case.expected_output.broadcast_ip
        );
    }
}

#[test]
fn subnet_calcs_gives_binary_digits() {
    let (network, min, max, broadcast) = subnet_calcs(&[132, 155, 18, 152], 9);
    assert_eq!(network, "10000100100000000000000000000000");
    assert_eq!(min, "10000100100000000000000000000001");
    assert_eq!(max, "10000100111111111111111111111110");
    assert_eq!(broadcast, "10000100111111111111111111111111");
}

#[test]
fn octets_as_binary_digits() {
    assert_eq!(octets_to_binary_num_str(&[132, 155, 18, 152]), "10000100100110110001001010011000");
    assert_eq!(octets_to_binary_num_str(&[0, 0, 0, 0]), "00000000000000000000000000000000");
    assert_eq!(octets_to_binary_num_str(&[255, 255, 255, 255]), "11111111111111111111111111111111");
    assert_eq!(octets_to_binary_num_str(&[1, 2, 3, 4]), "00000001000000100000001100000100");
}

#[test]
fn binary_digits_in_dotted_groups() {
    assert_eq!(
        binary_subnet_str_to_octets("10000100100110110001001010011000"),
        "10000100.10011011.00010010.10011000"
    );
    assert_eq!(
        binary_subnet_str_to_octets("00000000000000000000000000000001"),
        "00000000.00000000.00000000.00000001"
    );
}

#[test]
fn binary_digits_in_dotted_decimal() {
    assert_eq!(binary_subnet_str_to_base10_octets("10000100100110110001001010011000"), "132.155.18.152");
    assert_eq!(binary_subnet_str_to_base10_octets("00000000000000000000000000000000"), "0.0.0.0");
    assert_eq!(
        binary_subnet_str_to_base10_octets("11111111111111111111111111111111"),
        "255.255.255.255"
    );
    assert_eq!(binary_subnet_str_to_base10_octets("00001010000000000110010000001001"), "10.0.100.9");
}

#[test]
fn parse_reads_octets_and_prefix() {
    assert_eq!(parse_user_cidr_input("192.168.1.1/22"), Ok(([192, 168, 1, 1], 22)));
    assert_eq!(parse_user_cidr_input("0.0.0.0/0"), Ok(([0, 0, 0, 0], 0)));
    assert_eq!(parse_user_cidr_input("255.255.255.255/32"), Ok(([255, 255, 255, 255], 32)));
    assert_eq!(parse_user_cidr_input("1.22.133.4/5"), Ok(([1, 22, 133, 4], 5)));
}

#[test]
fn parse_takes_leading_zeros() {
    assert_eq!(parse_user_cidr_input("001.002.003.004/08"), Ok(([1, 2, 3, 4], 8)));
    assert_eq!(parse_user_cidr_input("000.00.0.255/00"), Ok(([0, 0, 0, 255], 0)));
}

#[test]
fn parse_refuses_octet_above_255() {
    assert_eq!(parse_user_cidr_input("999.1.1.1/24"), Err(ParseError::InvalidOctet));
    assert_eq!(parse_user_cidr_input("256.1.1.1/24"), Err(ParseError::InvalidOctet));
    assert_eq!(parse_user_cidr_input("1.1.1.256/24"), Err(ParseError::InvalidOctet));
    assert_eq!(parse_user_cidr_input("1.300.1.1/24"), Err(ParseError::InvalidOctet));
}

#[test]
fn parse_judges_octets_before_prefix() {
    assert_eq!(parse_user_cidr_input("1.1.999.1/99"), Err(ParseError::InvalidOctet));
}

#[test]
fn parse_refuses_prefix_above_32() {
    assert_eq!(parse_user_cidr_input("1.2.3.4/33"), Err(ParseError::InvalidPrefix));
    assert_eq!(parse_user_cidr_input("1.2.3.4/99"), Err(ParseError::InvalidPrefix));
}

#[test]
fn parse_refuses_wrong_shape() {
    let lines = [
        "1.2.3/24",
        "",
        "1.2.3.4",
        "1.2.3.4/",
        "/24",
        "1.2.3.4.5/24",
        "a.b.c.d/24",
        "1.2.3.x/24",
        "1.2.3.4/2x",
        "1.2.3.4/-1",
        "-1.2.3.4/24",
        "1..3.4/24",
        "1.2.3.4//24",
        "1.2.3.4 /24",
        "1.2.3.4\\24",
    ];
    for line in lines.iter() {
        assert_eq!(parse_user_cidr_input(line), Err(ParseError::MalformedInput), "{}", line);
    }
}

#[test]
fn parse_wants_literal_dots() {
    assert_eq!(parse_user_cidr_input("1x2x3x4/24"), Err(ParseError::MalformedInput));
    assert_eq!(parse_user_cidr_input("1,2,3,4/24"), Err(ParseError::MalformedInput));
    assert_eq!(parse_user_cidr_input("1 2 3 4/24"), Err(ParseError::MalformedInput));
}

#[test]
fn parse_wants_the_whole_line() {
    assert_eq!(parse_user_cidr_input("1234.1.1.1/24"), Err(ParseError::MalformedInput));
    assert_eq!(parse_user_cidr_input("1.2.3.4/240"), Err(ParseError::MalformedInput));
    assert_eq!(parse_user_cidr_input("1.2.3.4/333"), Err(ParseError::MalformedInput));
    assert_eq!(parse_user_cidr_input(" 1.2.3.4/24"), Err(ParseError::MalformedInput));
    assert_eq!(parse_user_cidr_input("1.2.3.4/24 "), Err(ParseError::MalformedInput));
    assert_eq!(parse_user_cidr_input("1.2.3.4/24\n"), Err(ParseError::MalformedInput));
    assert_eq!(parse_user_cidr_input("ip 1.2.3.4/24"), Err(ParseError::MalformedInput));
}

#[test]
fn parse_wants_ascii_digits() {
    assert_eq!(parse_user_cidr_input("\u{661}.2.3.4/24"), Err(ParseError::MalformedInput));
    assert_eq!(parse_user_cidr_input("1.2.3.4/\u{ff12}4"), Err(ParseError::MalformedInput));
}
