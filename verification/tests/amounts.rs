use ipc_agent::amount::fil_to_atto;
use ipc_agent::error::{Error, ErrorClass};

#[test]
fn whole_fil_scales_to_atto() {
    assert_eq!(fil_to_atto("2").unwrap(), 2_000_000_000_000_000_000);
    assert_eq!(fil_to_atto("0").unwrap(), 0);
    assert_eq!(fil_to_atto("10").unwrap(), 10_000_000_000_000_000_000);
}

#[test]
fn fractional_fil_scales_exactly() {
    assert_eq!(fil_to_atto("1.5").unwrap(), 1_500_000_000_000_000_000);
    assert_eq!(fil_to_atto("0.1").unwrap(), 100_000_000_000_000_000);
    assert_eq!(fil_to_atto("0.000000000000000001").unwrap(), 1);
}

#[test]
fn leading_zeroes_are_value_preserving() {
    assert_eq!(fil_to_atto("007").unwrap(), 7_000_000_000_000_000_000);
    assert_eq!(fil_to_atto("0.500000").unwrap(), 500_000_000_000_000_000);
}

#[test]
fn amount_rejects_empty_and_bare_dot() {
    assert!(matches!(fil_to_atto(""), Err(Error::InvalidAmount)));
    assert!(matches!(fil_to_atto("."), Err(Error::InvalidAmount)));
    assert!(matches!(fil_to_atto("1."), Err(Error::InvalidAmount)));
    assert!(matches!(fil_to_atto(".5"), Err(Error::InvalidAmount)));
}

#[test]
fn amount_rejects_too_much_precision() {
    // Nineteen fractional digits cannot be represented in atto units.
    assert!(matches!(fil_to_atto("1.0000000000000000001"), Err(Error::InvalidAmount)));
}

#[test]
fn amount_rejects_non_digits() {
    assert!(matches!(fil_to_atto("abc"), Err(Error::InvalidAmount)));
    assert!(matches!(fil_to_atto("1,5"), Err(Error::InvalidAmount)));
    assert!(matches!(fil_to_atto("-1"), Err(Error::InvalidAmount)));
    assert!(matches!(fil_to_atto("1.2.3"), Err(Error::InvalidAmount)));
}

#[test]
fn amount_rejects_values_beyond_the_carrier() {
    // 2^128 atto is out of reach; forty whole digits certainly are.
    assert!(matches!(
        fil_to_atto("9999999999999999999999999999999999999999"),
        Err(Error::InvalidAmount)
    ));
}

#[test]
fn error_classes_follow_the_taxonomy() {
    assert_eq!(Error::MalformedIdentifier.class(), ErrorClass::ClientInput);
    assert_eq!(Error::InvalidAmount.class(), ErrorClass::ClientInput);
    assert_eq!(Error::Internal.class(), ErrorClass::Configuration);
    assert_eq!(Error::NoAccountConfigured.class(), ErrorClass::Configuration);
    assert_eq!(Error::UnknownSubnet.class(), ErrorClass::SubnetUnavailable);
    assert_eq!(Error::NoParent.class(), ErrorClass::SubnetUnavailable);
    assert_eq!(Error::StaleCheckpoint.class(), ErrorClass::ChainConsistency);
    assert_eq!(Error::NonceGap.class(), ErrorClass::ChainConsistency);
    assert_eq!(Error::AlreadySubmitted.class(), ErrorClass::ChainConsistency);
    assert_eq!(Error::Transport.class(), ErrorClass::Transport);
}
