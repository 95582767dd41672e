use agent_platform::config::{Config, ConfigError};
use agent_platform::security::{bearer_token, issue_claims, Claims, TOKEN_LIFETIME_SECS};
use agent_platform::view_models::{SignupError, UserSignup};

#[test]
fn config_needs_every_setting() {
    let s = |v: &str| Some(v.to_string());
    let c = Config::from_values(s("postgres://db"), s("SECRET-REDACTED"), s("http://minio")).unwrap();
    assert_eq!(c.database_url, "postgres://db");
    assert_eq!(c.minio_endpoint, "http://minio");
    assert_eq!(Config::from_values(None, s("k"), s("m")).err(), Some(ConfigError::MissingDatabaseUrl));
    assert_eq!(Config::from_values(s("d"), None, s("m")).err(), Some(ConfigError::MissingJwtSecret));
    assert_eq!(Config::from_values(s("d"), s("k"), None).err(), Some(ConfigError::MissingMinioEndpoint));
}

#[test]
fn claims_expire_after_seven_days() {
    let c = Claims::expiring("user-1", 1_000).unwrap();
    assert_eq!(c.sub, "user-1");
    assert_eq!(c.exp, 1_000 + 604_800);
    assert_eq!(TOKEN_LIFETIME_SECS, 604_800);
    assert!(c.is_valid_at(1_000));
    assert!(!c.is_valid_at(605_800));
    assert!(Claims::expiring("u", i64::MAX - 10).is_none());
}

#[test]
fn issued_claims_name_the_user() {
    let c = issue_claims("abc", 1_700_000_000).unwrap();
    assert_eq!(c.sub, "abc");
    assert_eq!(c.exp, 1_700_000_000 + TOKEN_LIFETIME_SECS);
    assert!(issue_claims("abc", i64::MAX).is_none());
}

#[test]
fn bearer_header_yields_token() {
    assert_eq!(bearer_token("Bearer abc.def"), Some("abc.def".to_string()));
    assert_eq!(bearer_token("Bearer "), Some(String::new()));
    assert_eq!(bearer_token("Basic abc"), None);
    assert_eq!(bearer_token("Bearer"), None);
    assert_eq!(bearer_token("bearer abc"), None);
}

#[test]
fn signup_lengths_are_checked() {
    let ok = UserSignup { username: "alice".into(), password: "12345678".into() };
    assert_eq!(ok.validate(), Ok(()));
    let empty = UserSignup { username: String::new(), password: "12345678".into() };
    assert_eq!(empty.validate(), Err(SignupError::UsernameLength));
    let long = UserSignup { username: "x".repeat(51), password: "12345678".into() };
    assert_eq!(long.validate(), Err(SignupError::UsernameLength));
    let max = UserSignup { username: "é".repeat(50), password: "1234567".into() };
    assert_eq!(max.validate(), Err(SignupError::PasswordLength));
}
