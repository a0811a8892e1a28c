use etherbalance::addr::Address_;
use etherbalance::collect::{collect_records, AssetQuery, QueryError};
use etherbalance::config::{Config, ConfigAddress, ConfigNetwork};
use etherbalance::conversion::U256;
use etherbalance::monitor::BalanceMonitor;

fn addr(byte: u8) -> Address_ {
    Address_::from_bytes(vec![byte; 20])
}

fn one_network_config() -> Config {
    Config {
        networks: vec![ConfigNetwork {
            name: "main".to_string(),
            url: "http://localhost:8545".to_string(),
            tokens: vec![("usdc".to_string(), addr(0xAA))],
            addresses: vec![(
                "treasury".to_string(),
                ConfigAddress {
                    address: addr(0x01),
                    ether: true,
                    tokens: vec!["usdc".to_string()],
                    tag: Some("ops".to_string()),
                },
            )],
        }],
    }
}

#[test]
fn plan_covers_every_combination_in_order() {
    let config = Config {
        networks: vec![
            ConfigNetwork {
                name: "one".to_string(),
                url: "http://localhost:1".to_string(),
                tokens: vec![("usdc".to_string(), addr(0xAA)), ("dai".to_string(), addr(0xBB))],
                addresses: vec![
                    (
                        "a".to_string(),
                        ConfigAddress {
                            address: addr(0x01),
                            ether: true,
                            tokens: vec!["usdc".to_string(), "dai".to_string()],
                            tag: None,
                        },
                    ),
                    (
                        "b".to_string(),
                        ConfigAddress {
                            address: addr(0x02),
                            ether: false,
                            tokens: vec!["dai".to_string()],
                            tag: None,
                        },
                    ),
                ],
            },
            ConfigNetwork {
                name: "two".to_string(),
                url: "http://localhost:2".to_string(),
                tokens: vec![],
                addresses: vec![(
                    "c".to_string(),
                    ConfigAddress { address: addr(0x03), ether: true, tokens: vec![], tag: None },
                )],
            },
        ],
    };
    let monitor = BalanceMonitor::new(config).unwrap();
    let plan = monitor.query_plan();
    // 1 native + 2 tokens, then 0 native + 1 token, then 1 native.
    assert_eq!(plan.len(), 5);
    let labels: Vec<(String, String, String)> = plan
        .iter()
        .map(|t| {
            let asset = match &t.asset {
                AssetQuery::Ether => "ether".to_string(),
                AssetQuery::Erc20 { name, .. } => name.clone(),
            };
            (t.network_name.clone(), t.address_name.clone(), asset)
        })
        .collect();
    assert_eq!(labels[0], ("one".to_string(), "a".to_string(), "ether".to_string()));
    assert_eq!(labels[1], ("one".to_string(), "a".to_string(), "usdc".to_string()));
    assert_eq!(labels[2], ("one".to_string(), "a".to_string(), "dai".to_string()));
    assert_eq!(labels[3], ("one".to_string(), "b".to_string(), "dai".to_string()));
    assert_eq!(labels[4], ("two".to_string(), "c".to_string(), "ether".to_string()));
}

#[test]
fn failure_does_not_suppress_later_results() {
    let monitor = BalanceMonitor::new(one_network_config()).unwrap();
    let plan = monitor.query_plan();
    assert_eq!(plan.len(), 2);
    let outcomes: Vec<Result<U256, QueryError>> = vec![
        Err(QueryError { message: "node unreachable".to_string() }),
        Ok(U256::from_u64(7)),
    ];
    let records = collect_records(&plan, &outcomes);
    assert_eq!(records.len(), 2);
    assert!(records[0].balance.is_err());
    assert_eq!(records[0].token_name, "ether");
    let second = records[1].balance.as_ref().unwrap();
    assert_eq!((second.hi, second.lo), (0, 7));
    assert_eq!(records[1].token_name, "usdc");
}

#[test]
fn end_to_end_single_network_pass() {
    let monitor = BalanceMonitor::new(one_network_config()).unwrap();
    let plan = monitor.query_plan();
    assert_eq!(plan.len(), 2);
    // Stub client outcomes: 5 ether in wei, then 100 usdc at 6 decimals.
    let outcomes: Vec<Result<U256, QueryError>> = vec![
        Ok(U256::from_u64(5_000_000_000_000_000_000)),
        Ok(U256::from_u64(100_000_000)),
    ];
    let records = collect_records(&plan, &outcomes);
    assert_eq!(records.len(), 2);

    let first = &records[0];
    assert_eq!(first.network_name, "main");
    assert_eq!(first.address_name, "treasury");
    assert_eq!(first.address.as_bytes().as_slice(), &[0x01u8; 20]);
    assert_eq!(first.token_name, "ether");
    assert_eq!(first.tag, "ops");
    let b0 = first.balance.as_ref().unwrap();
    assert_eq!((b0.hi, b0.lo), (0, 5_000_000_000_000_000_000));

    let second = &records[1];
    assert_eq!(second.network_name, "main");
    assert_eq!(second.address_name, "treasury");
    assert_eq!(second.token_name, "usdc");
    assert_eq!(second.tag, "ops");
    let b1 = second.balance.as_ref().unwrap();
    assert_eq!((b1.hi, b1.lo), (0, 100_000_000));
}
