use btwin::scan::{
    access_flags, can_read, hex_dump, read_report, Address, ReadError, Scan, ScanEvent,
    ScanEventKind, POLL_INTERVAL_MS, SEARCH_TIME_MS,
};

const ADDR: &str = "00:1B:10:67:C8:AF";

#[test]
fn parse_target_address() {
    let a = Address::parse(ADDR).unwrap();
    assert_eq!(a.octets, [0xAF, 0xC8, 0x67, 0x10, 0x1B, 0x00]);
    let b = Address::parse("2A:00:AA:BB:CC:DD").unwrap();
    assert_eq!(b.octets, [0xDD, 0xCC, 0xBB, 0xAA, 0x00, 0x2A]);
}

#[test]
fn parse_refuses_bad_addresses() {
    assert!(Address::parse("2A:00:00").is_none());
    assert!(Address::parse("2A:00:AA:BB:CC:ZZ").is_none());
    assert!(Address::parse("").is_none());
    assert!(Address::parse("00:11:22:33:44:55:66").is_none());
}

#[test]
fn address_text_round_trip() {
    let a = Address::parse(ADDR).unwrap();
    assert_eq!(a.to_text(), ADDR);
    let lower = Address::parse("0a:0b:0c:0d:0e:ff").unwrap();
    assert_eq!(lower.to_text(), "0A:0B:0C:0D:0E:FF");
}

#[test]
fn address_sameness() {
    let a = Address::parse(ADDR).unwrap();
    let b = Address { octets: [0xAF, 0xC8, 0x67, 0x10, 0x1B, 0x00] };
    let c = Address { octets: [0xAF, 0xC8, 0x67, 0x10, 0x1B, 0x01] };
    assert!(a.same(&b));
    assert!(!a.same(&c));
}

fn ev(kind: ScanEventKind, text: &str) -> ScanEvent {
    ScanEvent { kind, address: Address::parse(text).unwrap() }
}

#[test]
fn scan_finds_target_on_discovery() {
    let mut scan = Scan::new(Address::parse(ADDR).unwrap());
    assert!(!scan.found());
    let line = scan.observe(&ev(ScanEventKind::Discovered, "11:22:33:44:55:66"));
    assert_eq!(line, "Device discovered : 11:22:33:44:55:66");
    assert!(!scan.found());
    let line = scan.observe(&ev(ScanEventKind::Connected, ADDR));
    assert_eq!(line, "Device connected : 00:1B:10:67:C8:AF");
    assert!(!scan.found());
    scan.observe(&ev(ScanEventKind::Discovered, ADDR));
    assert!(scan.found());
    let line = scan.observe(&ev(ScanEventKind::Lost, ADDR));
    assert_eq!(line, "Device lost : 00:1B:10:67:C8:AF");
    assert!(scan.found());
}

#[test]
fn scan_event_lines() {
    let mut scan = Scan::new(Address::parse(ADDR).unwrap());
    assert_eq!(
        scan.observe(&ev(ScanEventKind::Disconnected, "01:02:03:04:05:06")),
        "Device disconnected : 01:02:03:04:05:06"
    );
    assert_eq!(
        scan.observe(&ev(ScanEventKind::Updated, "01:02:03:04:05:06")),
        "Device updated : 01:02:03:04:05:06"
    );
    assert!(!scan.found());
}

#[test]
fn scan_timing() {
    assert_eq!(SEARCH_TIME_MS, 1500);
    assert_eq!(POLL_INTERVAL_MS, 100);
    assert!(Scan::keep_scanning(0));
    assert!(Scan::keep_scanning(1499));
    assert!(!Scan::keep_scanning(1500));
    assert!(!Scan::keep_scanning(10_000));
}

#[test]
fn characteristic_access() {
    assert_eq!(access_flags(0x00), "--");
    assert_eq!(access_flags(0x02), "r-");
    assert_eq!(access_flags(0x08), "-w");
    assert_eq!(access_flags(0x0A), "rw");
    assert_eq!(access_flags(0xFF), "rw");
    assert_eq!(access_flags(0x04), "--");
    assert!(can_read(0x12));
    assert!(!can_read(0x08));
}

#[test]
fn hex_dump_of_bytes() {
    assert_eq!(hex_dump(&[]), "");
    assert_eq!(hex_dump(&[0x00, 0x0f, 0xab, 0xff]), " 00 0f ab ff");
}

#[test]
fn read_reports() {
    assert_eq!(read_report(&Ok(vec![1, 0xc8])), " 01 c8");
    assert_eq!(
        read_report(&Err(ReadError::NotSupported(String::from("no")))),
        " Can't read : no"
    );
    assert_eq!(read_report(&Err(ReadError::Other)), "Another error");
}

#[test]
fn parse_follows_from_str_radix() {
    let a = Address::parse("+0A:000FF:1:b:C:d").unwrap();
    assert_eq!(a.octets, [0x0D, 0x0C, 0x0B, 0x01, 0xFF, 0x0A]);
    assert!(Address::parse("100:00:00:00:00:00").is_none());
    assert!(Address::parse("+:00:00:00:00:00").is_none());
    assert!(Address::parse("-1:00:00:00:00:00").is_none());
    assert!(Address::parse(":00:00:00:00:00").is_none());
    assert!(Address::parse("00:00:00:00:00:00:").is_none());
    assert!(Address::parse(" 0:00:00:00:00:00").is_none());
}
