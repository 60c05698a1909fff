use scg_core::digest::checksum;
use scg_core::text::{comes_before, push_decimal, push_little_endian, push_utf8, to_hex};
use scg_core::RealmId;

#[test]
fn checksums_are_sha256_in_hexadecimal() {
    assert_eq!(
        checksum(&RealmId::Lab("scenario-a".to_owned()), 258, "node.configured", r#"{"workers":4}"#),
        "71232f97b7069e680952486b30ed8a09c90a9a9e07f1cf18e5e33620faf5f747"
    );
    assert_eq!(
        checksum(&RealmId::Live, 0x0807060504030201, "a", "\"\u{e9}\""),
        "04eecc52b633ef91df2a7db96d5f7788655b45941c090dd1e94dff8e51b38edd"
    );
}

#[test]
fn checksums_tell_snapshots_apart() {
    let sums = [
        checksum(&RealmId::Live, 1, "a", "1"),
        checksum(&RealmId::Lab("a".to_owned()), 1, "a", "1"),
        checksum(&RealmId::Live, 2, "a", "1"),
        checksum(&RealmId::Live, 1, "b", "1"),
        checksum(&RealmId::Live, 1, "a", "2"),
        checksum(&RealmId::Live, 1, "a1", ""),
    ];
    for (i, sum) in sums.iter().enumerate() {
        assert_eq!(sum.len(), 64);
        for other in &sums[i + 1..] {
            assert_ne!(sum, other);
        }
    }
}

#[test]
fn numbers_are_written_out() {
    for (n, text) in [(0, "0"), (9, "9"), (10, "10"), (1207, "1207"), (u64::MAX, "18446744073709551615")] {
        let mut out = "n=".to_owned();
        push_decimal(&mut out, n);
        assert_eq!(out, format!("n={}", text));
    }
    assert_eq!(to_hex(&[]), "");
    assert_eq!(to_hex(&[0, 9, 10, 255, 160]), "00090affa0");
    let mut bytes = vec![7];
    push_little_endian(&mut bytes, 0x0102);
    push_utf8(&mut bytes, "\u{e9}");
    assert_eq!(bytes, [7, 2, 1, 0, 0, 0, 0, 0, 0, 0xc3, 0xa9]);
}

#[test]
fn texts_are_ordered_as_std_orders_them() {
    let texts = ["", "a", "A", "aa", "ab", "b", "\u{e9}", "\u{ffff}", "\u{10000}", "a\u{0}"];
    for a in texts {
        for b in texts {
            assert_eq!(comes_before(a, b), a < b, "{} {}", a, b);
        }
    }
}
