use wynd_stake::asset::{AssetInfo, AssetInfoValidated};
use wynd_stake::error::ContractError;
use wynd_stake::suite::SuiteBuilder;
use wynd_stake::text::{copy_list, copy_name, is_text, numbered, same_text};

#[test]
fn numbers_are_written_in_decimal() {
    assert_eq!(numbered("contract".to_string(), 0), "contract0");
    assert_eq!(numbered("contract".to_string(), 9), "contract9");
    assert_eq!(numbered("contract".to_string(), 10), "contract10");
    assert_eq!(numbered("".to_string(), 1_234_567_890), "1234567890");
    assert_eq!(numbered("x".to_string(), u64::MAX), format!("x{}", u64::MAX));
    for n in [11u64, 99, 100, 101, 5_000, 70_007] {
        assert_eq!(numbered("n".to_string(), n), format!("n{}", n));
    }
}

#[test]
fn names_are_compared_as_text() {
    assert!(same_text(&"a".to_string(), &"a".to_string()));
    assert!(!same_text(&"a".to_string(), &"A".to_string()));
    assert!(is_text(&Some("a".to_string()), &"a".to_string()));
    assert!(!is_text(&Some("b".to_string()), &"a".to_string()));
    assert!(!is_text(&None, &"a".to_string()));
    assert_eq!(copy_name(&Some("a".to_string())), Some("a".to_string()));
    assert_eq!(copy_name(&None), None);
    assert_eq!(copy_list(&vec![1u8, 2, 3]), vec![1u8, 2, 3]);
}

#[test]
fn tokens_get_the_next_contract_address() {
    let mut suite = SuiteBuilder::new().with_admin("admin").build();
    let first = suite.create_token(vec![("a", 5), ("b", 7), ("a", 1)]).unwrap();
    let second = suite.create_token(vec![]).unwrap();
    assert_eq!(first, "contract2");
    assert_eq!(second, "contract3");
    assert_eq!(suite.query_cw20_balance("a", &first), Ok(6));
    assert_eq!(suite.query_cw20_balance("b", &first), Ok(7));
    assert_eq!(suite.query_cw20_balance("a", &second), Ok(0));
    assert_eq!(suite.query_cw20_balance("a", "contract0"), Ok(0));
    // a balance that does not fit: nothing is set up
    assert_eq!(
        suite.create_token(vec![("a", u128::MAX), ("b", 7), ("a", 1)]),
        Err(ContractError::Overflow {})
    );
    assert_eq!(suite.query_cw20_balance("b", "contract4"), Ok(0));
    assert_eq!(suite.create_token(vec![("b", 1)]).unwrap(), "contract4");
    // a token and a coin of one name are two assets
    assert!(AssetInfoValidated::Token("x".to_string()).same(&AssetInfoValidated::Token("x".to_string())));
    assert!(!AssetInfoValidated::Token("x".to_string()).same(&AssetInfoValidated::Native("x".to_string())));
    assert!(AssetInfoValidated::Token("x".to_string()).is_token(&"x".to_string()));
    assert!(!AssetInfoValidated::Native("x".to_string()).is_token(&"x".to_string()));
    assert_eq!(
        AssetInfo::Token("x".to_string()).validate(),
        AssetInfoValidated::Token("x".to_string())
    );
    assert_eq!(AssetInfoValidated::Native("juno".to_string()).to_string(), "juno");
}
