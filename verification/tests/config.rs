use ferrous_comics::config::{
    load_config, parse_recipients, validate_config, Config, ConfigError, Environment, Unset,
};
use ferrous_comics::text::NumberFault;

fn make_config() -> Config {
    Config {
        mail_to: vec!["to@example.com".to_string()],
        mail_from: "from@example.com".to_string(),
        download: true,
        mail_attachment: false,
        smtp_server: "smtp.example.com".to_string(),
        smtp_port: 587,
        smtp_starttls: true,
        smtp_username: None,
        smtp_password: None,
        backfill_limit: 0,
    }
}

/// An environment in which only what must be set is set.
fn make_environment() -> Environment {
    Environment {
        mail_to: Ok("to@example.com".to_string()),
        mail_from: Ok("from@example.com".to_string()),
        download: None,
        mail_attachment: None,
        smtp_server: Ok("smtp.example.com".to_string()),
        smtp_port: None,
        smtp_starttls: None,
        smtp_username: None,
        smtp_password: None,
        backfill_limit: None,
    }
}

#[test]
fn config_attachment_requires_download() {
    let mut cfg = make_config();
    cfg.download = false;
    cfg.mail_attachment = true;
    assert!(validate_config(&cfg).is_err());
}

#[test]
fn config_username_without_password() {
    let mut cfg = make_config();
    cfg.smtp_username = Some("user".to_string());
    cfg.smtp_password = None;
    assert!(validate_config(&cfg).is_err());
}

#[test]
fn config_password_without_username() {
    let mut cfg = make_config();
    cfg.smtp_username = None;
    cfg.smtp_password = Some("pass".to_string());
    assert!(validate_config(&cfg).is_err());
}

#[test]
fn config_username_and_password_both_ok() {
    let mut cfg = make_config();
    cfg.smtp_username = Some("user".to_string());
    cfg.smtp_password = Some("pass".to_string());
    assert!(validate_config(&cfg).is_ok());
}

#[test]
fn config_neither_credentials_ok() {
    let cfg = make_config();
    assert!(validate_config(&cfg).is_ok());
}

#[test]
fn config_mail_to_single() {
    let mut cfg = make_config();
    cfg.mail_to = vec!["a@example.com".to_string()];
    assert!(validate_config(&cfg).is_ok());
    assert_eq!(cfg.mail_to.len(), 1);
}

#[test]
fn config_mail_to_multiple() {
    let raw = "a@example.com, b@example.com";
    let parsed: Vec<String> = parse_recipients(raw);
    assert_eq!(parsed, vec!["a@example.com", "b@example.com"]);
}

#[test]
fn config_mail_to_trims_whitespace() {
    let raw = "  a@example.com  ,  b@example.com  ";
    let parsed: Vec<String> = parse_recipients(raw);
    assert_eq!(parsed, vec!["a@example.com", "b@example.com"]);
}

#[test]
fn config_mail_to_empty_errors() {
    let mut cfg = make_config();
    cfg.mail_to = vec![];
    assert!(validate_config(&cfg).is_err());
}

#[test]
fn config_faults_in_order() {
    let mut cfg = make_config();
    cfg.mail_to = vec![];
    cfg.download = false;
    cfg.mail_attachment = true;
    cfg.smtp_username = Some("user".to_string());
    assert_eq!(validate_config(&cfg), Err(ConfigError::NoRecipient));
    cfg.mail_to.push("a@example.com".to_string());
    assert_eq!(validate_config(&cfg), Err(ConfigError::AttachmentWithoutDownload));
    cfg.download = true;
    assert_eq!(validate_config(&cfg), Err(ConfigError::PartialCredentials));
    cfg.smtp_username = None;
    assert_eq!(validate_config(&cfg), Ok(()));
}

#[test]
fn load_config_defaults() {
    let cfg = load_config(make_environment()).unwrap();
    assert_eq!(cfg.mail_to, vec!["to@example.com"]);
    assert_eq!(cfg.mail_from, "from@example.com");
    assert!(cfg.download);
    assert!(!cfg.mail_attachment);
    assert_eq!(cfg.smtp_server, "smtp.example.com");
    assert_eq!(cfg.smtp_port, 587);
    assert!(cfg.smtp_starttls);
    assert_eq!(cfg.smtp_username, None);
    assert_eq!(cfg.smtp_password, None);
    assert_eq!(cfg.backfill_limit, 5);
}

#[test]
fn load_config_all_set() {
    let cfg = load_config(Environment {
        mail_to: Ok(" a@example.com,, b@example.com ,".to_string()),
        mail_from: Ok("Me <me@example.com>".to_string()),
        download: Some(" YES ".to_string()),
        mail_attachment: Some("True".to_string()),
        smtp_server: Ok("relay".to_string()),
        smtp_port: Some("+465".to_string()),
        smtp_starttls: Some("0".to_string()),
        smtp_username: Some("user".to_string()),
        smtp_password: Some("pass".to_string()),
        backfill_limit: Some("0".to_string()),
    })
    .unwrap();
    assert_eq!(cfg.mail_to, vec!["a@example.com", "b@example.com"]);
    assert_eq!(cfg.mail_from, "Me <me@example.com>");
    assert!(cfg.download);
    assert!(cfg.mail_attachment);
    assert_eq!(cfg.smtp_server, "relay");
    assert_eq!(cfg.smtp_port, 465);
    assert!(!cfg.smtp_starttls);
    assert_eq!(cfg.smtp_username.as_deref(), Some("user"));
    assert_eq!(cfg.smtp_password.as_deref(), Some("pass"));
    assert_eq!(cfg.backfill_limit, 0);
}

#[test]
fn switches_know_three_words() {
    for (word, on) in [
        ("true", true),
        ("TRUE", true),
        ("\t1\n", true),
        ("yEs", true),
        ("false", false),
        ("no", false),
        ("on", false),
        ("11", false),
        ("", false),
        ("y e s", false),
    ] {
        let mut env = make_environment();
        env.smtp_starttls = Some(word.to_string());
        assert_eq!(load_config(env).unwrap().smtp_starttls, on, "{word:?}");
    }
}

fn fault(change: fn(&mut Environment)) -> ConfigError {
    let mut env = make_environment();
    change(&mut env);
    load_config(env).unwrap_err()
}

#[test]
fn load_config_faults() {
    assert_eq!(
        fault(|e| e.mail_to = Err(Unset::NotPresent)),
        ConfigError::MissingMailTo(Unset::NotPresent)
    );
    assert_eq!(
        fault(|e| e.mail_from = Err(Unset::NotUnicode("x".to_string()))),
        ConfigError::MissingMailFrom(Unset::NotUnicode("x".to_string()))
    );
    assert_eq!(
        fault(|e| e.smtp_server = Err(Unset::NotPresent)),
        ConfigError::MissingSmtpServer(Unset::NotPresent)
    );
    for (port, cause) in [
        ("", NumberFault::Empty),
        ("smtp", NumberFault::InvalidDigit),
        ("-1", NumberFault::InvalidDigit),
        ("65536", NumberFault::TooLarge),
        (" 25", NumberFault::InvalidDigit),
        ("2 5", NumberFault::InvalidDigit),
        ("+", NumberFault::InvalidDigit),
        ("0x19", NumberFault::InvalidDigit),
    ] {
        let mut env = make_environment();
        env.smtp_port = Some(port.to_string());
        assert_eq!(
            load_config(env).unwrap_err(),
            ConfigError::InvalidSmtpPort(cause),
            "{port:?}"
        );
    }
    assert_eq!(
        fault(|e| e.backfill_limit = Some("-1".to_string())),
        ConfigError::InvalidBackfillLimit(NumberFault::InvalidDigit)
    );
    assert_eq!(
        fault(|e| e.backfill_limit = Some("4294967296".to_string())),
        ConfigError::InvalidBackfillLimit(NumberFault::TooLarge)
    );
    assert_eq!(fault(|e| e.mail_to = Ok(" , ,".to_string())), ConfigError::NoRecipient);
    assert_eq!(
        fault(|e| {
            e.download = Some("no".to_string());
            e.mail_attachment = Some("yes".to_string());
        }),
        ConfigError::AttachmentWithoutDownload
    );
    assert_eq!(
        fault(|e| e.smtp_password = Some("pass".to_string())),
        ConfigError::PartialCredentials
    );
}

#[test]
fn missing_settings_come_before_combinations() {
    assert_eq!(
        fault(|e| {
            e.mail_to = Ok(String::new());
            e.backfill_limit = Some("many".to_string());
        }),
        ConfigError::InvalidBackfillLimit(NumberFault::InvalidDigit)
    );
}

#[test]
fn config_error_messages() {
    for (error, message, cause) in [
        (
            ConfigError::MissingMailTo(Unset::NotPresent),
            "missing env var XKCD_MAIL_TO",
            Some("environment variable not found"),
        ),
        (
            ConfigError::MissingMailFrom(Unset::NotUnicode("\"\\xFF\"".to_string())),
            "missing env var XKCD_MAIL_FROM",
            Some("environment variable was not valid unicode: \"\\xFF\""),
        ),
        (
            ConfigError::MissingSmtpServer(Unset::NotPresent),
            "missing env var XKCD_SMTP_SERVER",
            Some("environment variable not found"),
        ),
        (
            ConfigError::InvalidSmtpPort(NumberFault::TooLarge),
            "XKCD_SMTP_PORT must be a number",
            Some("number too large to fit in target type"),
        ),
        (
            ConfigError::InvalidBackfillLimit(NumberFault::Empty),
            "XKCD_BACKFILL_LIMIT must be a non-negative integer",
            Some("cannot parse integer from empty string"),
        ),
        (ConfigError::NoRecipient, "XKCD_MAIL_TO must contain at least one address", None),
        (
            ConfigError::AttachmentWithoutDownload,
            "XKCD_DOWNLOAD must be true when XKCD_MAIL_ATTACHMENT is true",
            None,
        ),
        (
            ConfigError::PartialCredentials,
            "XKCD_SMTP_USERNAME and XKCD_SMTP_PASSWORD must both be set or both be unset",
            None,
        ),
    ] {
        assert_eq!(error.message(), message);
        assert_eq!(error.cause().as_deref(), cause);
    }
}
