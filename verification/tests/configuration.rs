use newsletter::configuration::parse_port;
use newsletter::configuration::resolve_environment;
use newsletter::configuration::secret_string_new;
use newsletter::configuration::ApplicationSettings;
use newsletter::configuration::DatabaseSettings;
use newsletter::configuration::Environment;
use newsletter::configuration::Settings;
use newsletter::configuration::SslMode;
use newsletter::configuration::environment_filename;
use newsletter::startup::route_table;

fn sample_database_settings(require_ssl: bool) -> DatabaseSettings {
    DatabaseSettings {
        username: "postgres".to_string(),
        password: secret_string_new("guess me".to_string()),
        port: 5432,
        host: "127.0.0.1".to_string(),
        database_name: "newsletter".to_string(),
        require_ssl,
    }
}

#[test]
fn environment_names_round_trip() {
    assert_eq!(Environment::Local.as_str(), "local");
    assert_eq!(Environment::Production.as_str(), "production");
    assert!(matches!(
        Environment::try_from("local".to_string()),
        Ok(Environment::Local)
    ));
    assert!(matches!(
        Environment::try_from("LOCAL".to_string()),
        Ok(Environment::Local)
    ));
    assert!(matches!(
        Environment::try_from("Production".to_string()),
        Ok(Environment::Production)
    ));
}

#[test]
fn unsupported_environment_is_rejected() {
    let message = Environment::try_from("dev".to_string()).unwrap_err();
    assert_eq!(
        message,
        "dev is not supported environment. Use 'local' or 'production'."
    );
}

#[test]
fn unset_selector_defaults_to_local() {
    assert!(matches!(resolve_environment(None), Ok(Environment::Local)));
    assert!(matches!(
        resolve_environment(Some("local".to_string())),
        Ok(Environment::Local)
    ));
    assert!(resolve_environment(Some("staging".to_string())).is_err());
}

#[test]
fn overlay_file_names_follow_the_environment() {
    assert_eq!(environment_filename(&Environment::Local), "local.yml");
    assert_eq!(
        environment_filename(&Environment::Production),
        "production.yml"
    );
}

#[test]
fn ports_are_coerced_from_strings() {
    assert_eq!(parse_port("8000"), Some(8000));
    assert_eq!(parse_port("0042"), Some(42));
    assert_eq!(parse_port("65535"), Some(65535));
    assert_eq!(parse_port("65536"), None);
    assert_eq!(parse_port("99999999999999999999"), None);
    assert_eq!(parse_port(""), None);
    assert_eq!(parse_port("12a"), None);
    assert_eq!(parse_port("-1"), None);
}

#[test]
fn require_ssl_demands_encryption() {
    let descriptor = sample_database_settings(true).without_db();
    assert_eq!(descriptor.ssl_mode, SslMode::Require);
}

#[test]
fn optional_ssl_prefers_encryption_with_fallback() {
    let descriptor = sample_database_settings(false).without_db();
    assert_eq!(descriptor.ssl_mode, SslMode::PreferEncrypted);
}

#[test]
fn descriptors_carry_the_settings() {
    let settings = Settings {
        database: sample_database_settings(true),
        application: ApplicationSettings {
            host: "0.0.0.0".to_string(),
            port: 8000,
        },
    };
    let admin = settings.database.without_db();
    assert_eq!(admin.host, "127.0.0.1");
    assert_eq!(admin.port, 5432);
    assert_eq!(admin.username, "postgres");
    assert_eq!(admin.password, "guess me");
    assert!(admin.database_name.is_none());

    let operational = settings.database.with_db();
    assert_eq!(operational.host, "127.0.0.1");
    assert_eq!(operational.port, 5432);
    assert_eq!(operational.username, "postgres");
    assert_eq!(operational.password, "guess me");
    assert_eq!(operational.database_name.as_deref(), Some("newsletter"));
    assert_eq!(operational.ssl_mode, SslMode::Require);
}

#[test]
fn route_table_holds_exactly_the_two_endpoints() {
    let routes = route_table();
    assert_eq!(routes.len(), 2);
    assert_eq!(routes[0].method, "GET");
    assert_eq!(routes[0].path, "/health");
    assert_eq!(routes[1].method, "POST");
    assert_eq!(routes[1].path, "/subscriptions");
}
