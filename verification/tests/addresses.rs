use lockstep_multiplayer_experimenting::client_functionality::user_data_for_name;
use lockstep_multiplayer_experimenting::server_functionality::name_from_user_data;
use lockstep_multiplayer_experimenting::{translate_host, translate_port, PORT};

#[test]
fn ports_parse_like_integers() {
    assert_eq!(translate_port("8080"), 8080);
    assert_eq!(translate_port("0"), 0);
    assert_eq!(translate_port("+25"), 25);
    assert_eq!(translate_port("-1"), -1);
    assert_eq!(translate_port("2147483647"), 2147483647);
    assert_eq!(translate_port("-2147483648"), -2147483648);
}

#[test]
fn bad_ports_fall_back_to_the_default() {
    assert_eq!(translate_port(""), PORT);
    assert_eq!(translate_port("not a port"), PORT);
    assert_eq!(translate_port("80a"), PORT);
    assert_eq!(translate_port("+"), PORT);
    assert_eq!(translate_port("-"), PORT);
    assert_eq!(translate_port("2147483648"), PORT);
    assert_eq!(translate_port("-2147483649"), PORT);
    assert_eq!(translate_port("99999999999999999999"), PORT);
    assert_eq!(translate_port(" 80"), PORT);
}

#[test]
fn placeholder_hosts_resolve_to_the_default() {
    assert_eq!(translate_host("localhost", ""), "127.0.0.1");
    assert_eq!(translate_host("-", ""), "127.0.0.1");
    assert_eq!(translate_host(".", ""), "127.0.0.1");
    assert_eq!(translate_host("localhost", "10.0.0.7"), "10.0.0.7");
    assert_eq!(translate_host("example.org", "10.0.0.7"), "example.org");
    assert_eq!(translate_host("192.168.0.1", ""), "192.168.0.1");
}

#[test]
fn user_data_carries_the_display_name() {
    let data = user_data_for_name("alice");
    assert_eq!(data.len(), 256);
    assert_eq!(name_from_user_data(&data), Some(String::from("alice")));

    let data = user_data_for_name("");
    assert_eq!(name_from_user_data(&data), Some(String::new()));

    let data = user_data_for_name("ça marche");
    assert_eq!(name_from_user_data(&data), Some(String::from("ça marche")));
}

#[test]
fn invalid_name_bytes_are_rejected() {
    let mut data = vec![0u8; 256];
    data[0] = 2;
    data[8] = 0xFF;
    data[9] = 0xFE;
    assert_eq!(name_from_user_data(&data), None);
}

#[test]
fn oversized_declared_length_is_clamped() {
    let mut data = vec![0u8; 256];
    // Length field far beyond the 248 payload bytes; the payload is all
    // zero bytes, which decode as 248 NUL characters.
    data[0..8].copy_from_slice(&u64::MAX.to_le_bytes());
    let name = name_from_user_data(&data).expect("zero bytes are valid text");
    assert_eq!(name.len(), 248);
}
