use gaspipe::numeric::{Address, U256};
use gaspipe::request::RequestTransaction;

fn request(from: &str, to: &str, value: &str, data: &str) -> RequestTransaction {
    RequestTransaction {
        from: from.to_string(),
        to: to.to_string(),
        data: data.to_string(),
        value: value.to_string(),
    }
}

fn parse(from: &str, to: &str, value: &str, data: &str) -> gaspipe::execute::Transaction {
    RequestTransaction::into(&request(from, to, value, data))
}

#[test]
fn test_parse_address_exact() {
    let t = parse("0x28c6c06298d514db089934071355e5743bf21d60", "0x0", "0", "");
    assert_eq!(t.from.hi, u32::from_str_radix("28c6c062", 16).unwrap());
    assert_eq!(t.from.lo, u128::from_str_radix("98d514db089934071355e5743bf21d60", 16).unwrap());
}

#[test]
fn test_parse_address_without_prefix() {
    let with = parse("0x28c6c06298d514db089934071355e5743bf21d60", "0x0", "0", "");
    let without = parse("28c6c06298d514db089934071355e5743bf21d60", "0x0", "0", "");
    assert_eq!(with.from, without.from);
}

#[test]
fn test_parse_address_malformed_falls_back_zero() {
    let zero = Address { hi: 0, lo: 0 };
    assert_eq!(parse("0x1234", "0x0", "0", "").from, zero);
    assert_eq!(parse("", "0x0", "0", "").from, zero);
    assert_eq!(
        parse("0x28c6c06298d514db089934071355e5743bf21dzz", "0x0", "0", "").from,
        zero
    );
}

#[test]
fn test_parse_value_exact() {
    let t = parse("0x0", "0x0", "1000000000000000000", "");
    assert_eq!(t.value, U256 { hi: 0, lo: 1_000_000_000_000_000_000 });
    let z = parse("0x0", "0x0", "0", "");
    assert_eq!(z.value, U256 { hi: 0, lo: 0 });
}

#[test]
fn test_parse_value_carries_into_high_limb() {
    // 2^130 = 4 * 2^128
    let t = parse(
        "0x0",
        "0x0",
        "1361129467683753853853498429727072845824",
        "",
    );
    assert_eq!(t.value, U256 { hi: 4, lo: 0 });
}

#[test]
fn test_parse_value_largest_word() {
    // 2^256 - 1 parses exactly; 2^256 falls back to zero.
    let t = parse(
        "0x0",
        "0x0",
        "115792089237316195423570985008687907853269984665640564039457584007913129639935",
        "",
    );
    assert_eq!(t.value, U256 { hi: u128::MAX, lo: u128::MAX });
    let over = parse(
        "0x0",
        "0x0",
        "115792089237316195423570985008687907853269984665640564039457584007913129639936",
        "",
    );
    assert_eq!(over.value, U256 { hi: 0, lo: 0 });
}

#[test]
fn test_parse_value_malformed_falls_back_zero() {
    assert_eq!(parse("0x0", "0x0", "12a", "").value, U256 { hi: 0, lo: 0 });
    assert_eq!(parse("0x0", "0x0", "-5", "").value, U256 { hi: 0, lo: 0 });
}

#[test]
fn test_parse_value_hex_exact() {
    assert_eq!(parse("0x0", "0x0", "0x186a0", "").value, U256 { hi: 0, lo: 100_000 });
    assert_eq!(
        parse("0x0", "0x0", "0xde0b6b3a7640000", "").value,
        U256 { hi: 0, lo: 1_000_000_000_000_000_000 },
    );
    // Sixty-four digits reach the top of the word.
    let all_f = format!("0x{}", "f".repeat(64));
    assert_eq!(parse("0x0", "0x0", &all_f, "").value, U256 { hi: u128::MAX, lo: u128::MAX });
    // The high limb is populated past thirty-two digits.
    assert_eq!(
        parse("0x0", "0x0", "0x400000000000000000000000000000000", "").value,
        U256 { hi: 4, lo: 0 },
    );
}

#[test]
fn test_parse_value_hex_malformed_falls_back_zero() {
    assert_eq!(parse("0x0", "0x0", "0x", "").value, U256 { hi: 0, lo: 0 });
    assert_eq!(parse("0x0", "0x0", "0x12g4", "").value, U256 { hi: 0, lo: 0 });
    let too_long = format!("0x{}", "f".repeat(65));
    assert_eq!(parse("0x0", "0x0", &too_long, "").value, U256 { hi: 0, lo: 0 });
}

#[test]
fn test_parse_data_decodes_hex() {
    let t = parse(
        "0x0",
        "0x0",
        "0",
        "0xa9059cbb000000000000000000000000000000000000000000000000000000000000000100000000000000000000000000000000000000000000000000000000000186a0",
    );
    assert_eq!(t.data.len(), 68);
    assert_eq!(&t.data[0..4], &[0xa9, 0x05, 0x9c, 0xbb]);
    assert_eq!(t.data[67], 0xa0);
}

#[test]
fn test_parse_data_either_case() {
    let t = parse("0x0", "0x0", "0", "0xAbCd");
    assert_eq!(t.data, vec![0xab, 0xcd]);
}

#[test]
fn test_parse_data_malformed_falls_back_empty() {
    assert!(parse("0x0", "0x0", "0", "").data.is_empty());
    assert!(parse("0x0", "0x0", "0", "a9059cbb").data.is_empty());
    assert!(parse("0x0", "0x0", "0", "0xabc").data.is_empty());
    assert!(parse("0x0", "0x0", "0", "0xzz").data.is_empty());
}

#[test]
fn test_parse_batch_keeps_order() {
    let reqs = vec![
        request("0x0", "0x0", "7", ""),
        request("0x0", "0x0", "9", ""),
    ];
    let txs = gaspipe::request::parse_batch(&reqs);
    assert_eq!(txs.len(), 2);
    assert_eq!(txs[0].value.lo, 7);
    assert_eq!(txs[1].value.lo, 9);
}
