use memscan::utils::{format_address, TermColors};

#[test]
fn format_address_pads_to_sixteen_upper_hex_digits() {
    assert_eq!(format_address(0), "0x0000000000000000");
    assert_eq!(format_address(0x1E8), "0x00000000000001E8");
    assert_eq!(format_address(0x7FF6_1234_ABCD), "0x00007FF61234ABCD");
}

#[test]
fn format_address_of_largest_address() {
    assert_eq!(format_address(usize::MAX), format!("0x{:016X}", usize::MAX));
}

#[test]
fn format_address_reads_back() {
    for a in [0usize, 1, 15, 16, 255, 0xDEAD_BEEF, 0x0123_4567_89AB_CDEF, usize::MAX] {
        let text = format_address(a);
        assert_eq!(text.len(), 18);
        assert!(text.starts_with("0x"));
        assert_eq!(usize::from_str_radix(&text[2..], 16).unwrap(), a);
    }
}

#[test]
fn header_and_value_text() {
    let colors = TermColors;
    assert_eq!(colors.header_text("init"), "[init]");
    assert_eq!(colors.header_text(""), "[]");
    assert_eq!(colors.value_text("ok"), " ok\n");
}

#[test]
fn address_texts_sort_like_addresses() {
    let addrs = [0usize, 9, 10, 15, 16, 0x9F, 0xA0, 0xFFFF, 0x1_0000, 0x7FF6_1234_ABCD, usize::MAX - 1, usize::MAX];
    for i in 0..addrs.len() {
        for j in 0..addrs.len() {
            assert_eq!(addrs[i] < addrs[j], format_address(addrs[i]) < format_address(addrs[j]));
        }
    }
}
