use fish_net_radio::mac::MacAddress;

#[test]
fn mac_parses_and_prints() {
    let m: MacAddress = "00:11:22:33:44:55".parse().unwrap();
    assert_eq!(m, MacAddress([0x00, 0x11, 0x22, 0x33, 0x44, 0x55]));
    assert_eq!(m.to_text(), "00:11:22:33:44:55");
    let lower = MacAddress::parse("de:ad:be:ef:0a:0b").unwrap();
    assert_eq!(lower.to_text(), "DE:AD:BE:EF:0A:0B");
    assert_eq!(MacAddress::broadcast().to_text(), "FF:FF:FF:FF:FF:FF");
}

#[test]
fn mac_octets_read_as_from_str_radix() {
    assert_eq!(MacAddress::parse("+1:2:003:4:5:6").unwrap(), MacAddress([1, 2, 3, 4, 5, 6]));
    assert_eq!(MacAddress::parse("1:2:3:4:5:100").err(), Some("Invalid MAC octet: 100".to_string()));
    assert_eq!(MacAddress::parse("1:2::4:5:6").err(), Some("Invalid MAC octet: ".to_string()));
    assert_eq!(MacAddress::parse("1:2:+:4:5:6").err(), Some("Invalid MAC octet: +".to_string()));
    assert_eq!(MacAddress::parse("1:-2:3:4:5:6").err(), Some("Invalid MAC octet: -2".to_string()));
    assert_eq!(
        MacAddress::parse("1:2:3:4:5").err(),
        Some("MAC address must contain 6 octets separated by ':'".to_string())
    );
    assert_eq!(
        MacAddress::parse("1:2:3:4:5:6:").err(),
        Some("MAC address must contain 6 octets separated by ':'".to_string())
    );
    assert_eq!(MacAddress::parse("1:2:3:4:5:é").err(), Some("Invalid MAC octet: é".to_string()));
}

#[test]
fn mac_text_round_trip() {
    let m = MacAddress([0x0F, 0xA0, 0x7C, 0x00, 0xFF, 0x10]);
    assert_eq!(MacAddress::parse(&m.to_text()).unwrap(), m);
}
