use hyprpanopticon::address::{parse_address, toplevel_handle};

#[test]
fn parses_addresses() {
    assert_eq!(parse_address("0x5693171ffe00"), Some(0x5693171ffe00));
    assert_eq!(parse_address("5693171ffe00"), Some(0x5693171ffe00));
    assert_eq!(parse_address("nope"), None);
}

#[test]
fn address_edge_cases() {
    assert_eq!(parse_address(""), None);
    assert_eq!(parse_address("0x"), None);
    assert_eq!(parse_address("+"), None);
    assert_eq!(parse_address("0x+"), None);
    assert_eq!(parse_address("+ff"), Some(0xff));
    assert_eq!(parse_address("0x+ff"), Some(0xff));
    assert_eq!(parse_address("-1"), None);
    assert_eq!(parse_address("0xABCdef"), Some(0xabcdef));
    assert_eq!(parse_address("0X12"), None);
    assert_eq!(parse_address(" 12"), None);
    assert_eq!(parse_address("12g"), None);
    assert_eq!(parse_address("0x0x12"), None);
    assert_eq!(parse_address("0"), Some(0));
    assert_eq!(parse_address("x12"), None);
}

#[test]
fn address_limits() {
    assert_eq!(parse_address("0xffffffffffffffff"), Some(u64::MAX));
    assert_eq!(parse_address("0x0000000000000000ffffffffffffffff"), Some(u64::MAX));
    assert_eq!(parse_address("0x10000000000000000"), None);
    assert_eq!(parse_address("fffffffffffffffff"), None);
}

#[test]
fn address_roundtrip_as_printed() {
    for v in [0u64, 1, 0xf, 0x10, 0x5693171ffe00, u64::MAX] {
        assert_eq!(parse_address(&format!("0x{v:x}")), Some(v));
        assert_eq!(parse_address(&format!("{v:#x}")), Some(v));
        assert_eq!(parse_address(&format!("{v:x}")), Some(v));
    }
}

#[test]
fn toplevel_handle_keeps_low_bits() {
    assert_eq!(toplevel_handle(0x5693_171f_fe00), 0x171f_fe00);
    assert_eq!(toplevel_handle(0x1_0000_0005), 5);
    assert_eq!(toplevel_handle(7), 7);
}
