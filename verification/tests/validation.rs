use etherbalance::addr::{hex_string_to_address, Address_, AddressParseError};
use etherbalance::config::{Config, ConfigAddress, ConfigNetwork, SecondsParseError};
use etherbalance::config::duration_from_seconds;
use etherbalance::monitor::{BalanceMonitor, ConfigError};

fn addr(byte: u8) -> Address_ {
    Address_::from_bytes(vec![byte; 20])
}

fn network(name: &str, url: &str, tokens: Vec<(&str, u8)>, addresses: Vec<(&str, ConfigAddress)>) -> ConfigNetwork {
    ConfigNetwork {
        name: name.to_string(),
        url: url.to_string(),
        tokens: tokens.into_iter().map(|(s, b)| (s.to_string(), addr(b))).collect(),
        addresses: addresses.into_iter().map(|(s, a)| (s.to_string(), a)).collect(),
    }
}

fn watched(byte: u8, ether: bool, tokens: Vec<&str>, tag: Option<&str>) -> ConfigAddress {
    ConfigAddress {
        address: addr(byte),
        ether,
        tokens: tokens.into_iter().map(|s| s.to_string()).collect(),
        tag: tag.map(|s| s.to_string()),
    }
}

#[test]
fn hex_address_roundtrip() {
    let a = hex_string_to_address("0xAAAAAAAAAAAAAAAAAAAAAAAAAAAAAAAAAAAAAAAA").unwrap();
    assert_eq!(a.as_bytes().as_slice(), &[0xAAu8; 20]);
    let b = hex_string_to_address("0x0102030405060708090a0b0c0d0e0f1011121314").unwrap();
    assert_eq!(
        b.as_bytes().as_slice(),
        &[1, 2, 3, 4, 5, 6, 7, 8, 9, 10, 11, 12, 13, 14, 15, 16, 17, 18, 19, 20]
    );
    let c = hex_string_to_address("0xAbCdEf0000000000000000000000000000000000").unwrap();
    assert_eq!(c.as_bytes()[0], 0xAB);
    assert_eq!(c.as_bytes()[1], 0xCD);
    assert_eq!(c.as_bytes()[2], 0xEF);
}

#[test]
fn hex_address_rejects_bad_input() {
    assert!(matches!(
        hex_string_to_address("AAAAAAAAAAAAAAAAAAAAAAAAAAAAAAAAAAAAAAAA"),
        Err(AddressParseError::MissingPrefix { .. })
    ));
    assert!(matches!(
        hex_string_to_address(""),
        Err(AddressParseError::MissingPrefix { .. })
    ));
    // Right length, one non-hex digit.
    assert!(matches!(
        hex_string_to_address("0xAAAAAAAAAAAAAAAAAAAAAAAAAAAAAAAAAAAAAAAg"),
        Err(AddressParseError::InvalidHex { .. })
    ));
    // Too short and too long.
    assert!(matches!(
        hex_string_to_address("0xAAAA"),
        Err(AddressParseError::InvalidHex { .. })
    ));
    assert!(matches!(
        hex_string_to_address("0xAAAAAAAAAAAAAAAAAAAAAAAAAAAAAAAAAAAAAAAAAA"),
        Err(AddressParseError::InvalidHex { .. })
    ));
    if let Err(AddressParseError::InvalidHex { input }) = hex_string_to_address("0xAAAA") {
        assert_eq!(input, "0xAAAA");
    } else {
        panic!("expected InvalidHex");
    }
}

#[test]
fn seconds_parsing() {
    assert_eq!(duration_from_seconds("100").unwrap(), 100);
    assert_eq!(duration_from_seconds("0").unwrap(), 0);
    assert_eq!(duration_from_seconds("+5").unwrap(), 5);
    assert_eq!(duration_from_seconds("18446744073709551615").unwrap(), u64::MAX);
    assert!(matches!(
        duration_from_seconds("18446744073709551616"),
        Err(SecondsParseError::Overflow)
    ));
    assert!(matches!(duration_from_seconds(""), Err(SecondsParseError::NotANumber)));
    assert!(matches!(duration_from_seconds("+"), Err(SecondsParseError::NotANumber)));
    assert!(matches!(duration_from_seconds("12x"), Err(SecondsParseError::NotANumber)));
    assert!(matches!(duration_from_seconds("-1"), Err(SecondsParseError::NotANumber)));
}

#[test]
fn reserved_token_name_rejected_anywhere() {
    // The reserved key sits in the second network: the check is global.
    let config = Config {
        networks: vec![
            network(
                "main",
                "http://localhost:8545",
                vec![("usdc", 0xAA)],
                vec![("treasury", watched(0x01, true, vec!["usdc"], None))],
            ),
            network(
                "side",
                "http://localhost:8546",
                vec![("ether", 0xBB)],
                vec![],
            ),
        ],
    };
    assert!(matches!(
        BalanceMonitor::new(config),
        Err(ConfigError::ReservedTokenName)
    ));
}

#[test]
fn unknown_token_symbol_rejected_and_named() {
    let config = Config {
        networks: vec![network(
            "main",
            "http://localhost:8545",
            vec![("usdc", 0xAA)],
            vec![("treasury", watched(0x01, true, vec!["usdc", "dai"], None))],
        )],
    };
    match BalanceMonitor::new(config) {
        Err(ConfigError::UnknownToken { symbol, address_label }) => {
            assert_eq!(symbol, "dai");
            assert_eq!(address_label, "treasury");
        }
        other => panic!("expected UnknownToken, got {:?}", other.map(|_| ())),
    }
}

#[test]
fn url_schemes_checked() {
    let bad = Config {
        networks: vec![network("main", "ftp://host", vec![], vec![])],
    };
    match BalanceMonitor::new(bad) {
        Err(ConfigError::UnsupportedScheme { scheme }) => assert_eq!(scheme, "ftp"),
        other => panic!("expected UnsupportedScheme, got {:?}", other.map(|_| ())),
    }

    let unparseable = Config {
        networks: vec![network("main", "not a url", vec![], vec![])],
    };
    match BalanceMonitor::new(unparseable) {
        Err(ConfigError::InvalidUrl { url }) => assert_eq!(url, "not a url"),
        other => panic!("expected InvalidUrl, got {:?}", other.map(|_| ())),
    }

    // Both supported schemes are accepted.
    let http = Config {
        networks: vec![network("main", "http://localhost:8545", vec![], vec![])],
    };
    assert!(BalanceMonitor::new(http).is_ok());
    let https = Config {
        networks: vec![network("main", "https://node.example:8545", vec![], vec![])],
    };
    assert!(BalanceMonitor::new(https).is_ok());
}

#[test]
fn resolved_model_follows_configuration() {
    let config = Config {
        networks: vec![network(
            "main",
            "https://node.example",
            vec![("usdc", 0xAA), ("dai", 0xBB)],
            vec![
                ("treasury", watched(0x01, true, vec!["dai", "usdc"], Some("ops"))),
                ("reserve", watched(0x02, false, vec!["usdc"], None)),
            ],
        )],
    };
    let monitor = BalanceMonitor::new(config).unwrap();
    assert_eq!(monitor.networks.len(), 1);
    let net = &monitor.networks[0];
    assert_eq!(net.name, "main");
    assert_eq!(net.url, "https://node.example");
    assert_eq!(net.addresses.len(), 2);
    let treasury = &net.addresses[0];
    assert_eq!(treasury.name, "treasury");
    assert!(treasury.monitor_ether);
    assert_eq!(treasury.tag, "ops");
    assert_eq!(treasury.tokens.len(), 2);
    assert_eq!(treasury.tokens[0].name, "dai");
    assert_eq!(treasury.tokens[0].address.as_bytes().as_slice(), &[0xBBu8; 20]);
    assert_eq!(treasury.tokens[1].name, "usdc");
    assert_eq!(treasury.tokens[1].address.as_bytes().as_slice(), &[0xAAu8; 20]);
    let reserve = &net.addresses[1];
    assert!(!reserve.monitor_ether);
    assert_eq!(reserve.tag, "");
    assert_eq!(reserve.tokens.len(), 1);
}
