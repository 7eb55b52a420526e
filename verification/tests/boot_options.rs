use nested_partition_loader::options::{parse_options, Options};
use nested_partition_loader::Error;

#[test]
fn parse_single_boot_index() {
    let r = parse_options("boot-index=00112233-4455-6677-8899-aabbccddeeff").unwrap();
    assert_eq!(r.len(), 1);
    let Options::BootIndex(u) = &r[0];
    assert_eq!(u.to_hyphenated(), "00112233-4455-6677-8899-aabbccddeeff");
}

#[test]
fn parse_several_boot_indexes() {
    let r = parse_options(
        "boot-index=00112233-4455-6677-8899-aabbccddeeff boot-index=5c513513-e1b6-4fb1-aee8-b12da81551f3",
    )
    .unwrap();
    assert_eq!(r.len(), 2);
    let Options::BootIndex(u) = &r[1];
    assert_eq!(u.to_hyphenated(), "5c513513-e1b6-4fb1-aee8-b12da81551f3");
}

#[test]
fn refuse_malformed_boot_options() {
    assert!(parse_options("").is_err());
    assert!(parse_options("boot-index=").is_err());
    assert!(parse_options("other-key=00112233-4455-6677-8899-aabbccddeeff").is_err());
    assert!(parse_options("boot-index=0011223g-4455-6677-8899-aabbccddeeff").is_err());
    // Trailing content is fatal.
    assert!(parse_options("boot-index=00112233-4455-6677-8899-aabbccddeeff ").is_err());
    assert!(parse_options("boot-index=00112233-4455-6677-8899-aabbccddeeff x").is_err());
    match parse_options("boot-index=bad") {
        Err(Error::Config) => {}
        _ => panic!("unexpected result"),
    }
}
