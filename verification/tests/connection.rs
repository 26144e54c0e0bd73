use ftp_utils::connection::{
    merge_connection, password_from_cli_or_env, ConnectionArgs, ConnectionJsonConfig,
};

fn empty_args() -> ConnectionArgs {
    ConnectionArgs {
        config: None,
        host: None,
        port: None,
        user: None,
        remote_dir: None,
        local_dir: None,
        ftps: false,
        insecure_tls: false,
        password: None,
    }
}

#[test]
fn cli_overrides_json_for_scalar_fields() {
    let mut args = empty_args();
    args.host = Some("cli-host".to_string());
    args.user = Some("cli-user".to_string());
    args.remote_dir = Some("/cli-remote".to_string());
    args.local_dir = Some("./cli-local".to_string());

    let json = ConnectionJsonConfig {
        host: Some("json-host".to_string()),
        user: Some("json-user".to_string()),
        remote_dir: Some("/json-remote".to_string()),
        local_dir: Some("./json-local".to_string()),
        ..Default::default()
    };

    let effective = merge_connection(&args, &json).unwrap();

    assert_eq!(effective.host, "cli-host");
    assert_eq!(effective.user, "cli-user");
    assert_eq!(effective.remote_dir, "/cli-remote");
    assert_eq!(effective.local_dir, "./cli-local");
}

#[test]
fn falls_back_to_json_when_cli_field_absent() {
    let args = empty_args();
    let json = ConnectionJsonConfig {
        host: Some("json-host".to_string()),
        user: Some("json-user".to_string()),
        remote_dir: Some("/json-remote".to_string()),
        local_dir: Some("./json-local".to_string()),
        ..Default::default()
    };

    let effective = merge_connection(&args, &json).unwrap();

    assert_eq!(effective.host, "json-host");
    assert_eq!(effective.user, "json-user");
}

#[test]
fn errors_when_required_field_missing_everywhere() {
    let args = empty_args();
    let json = ConnectionJsonConfig::default();

    let result = merge_connection(&args, &json);

    assert!(result.is_err());
}

#[test]
fn ftps_and_insecure_tls_merge_as_or() {
    let mut args = empty_args();
    args.host = Some("h".into());
    args.user = Some("u".into());
    args.remote_dir = Some("/r".into());
    args.local_dir = Some("./l".to_string());
    args.ftps = true;

    let json = ConnectionJsonConfig { insecure_tls: Some(true), ..Default::default() };

    let effective = merge_connection(&args, &json).unwrap();

    assert!(effective.ftps); // from CLI
    assert!(effective.insecure_tls); // from JSON
}

#[test]
fn default_port_is_21() {
    let mut args = empty_args();
    args.host = Some("h".into());
    args.user = Some("u".into());
    args.remote_dir = Some("/r".into());
    args.local_dir = Some("./l".to_string());

    let effective = merge_connection(&args, &ConnectionJsonConfig::default()).unwrap();

    assert_eq!(effective.port, 21);
}

#[test]
fn port_precedence_cli_then_json() {
    let mut args = empty_args();
    args.host = Some("h".into());
    args.user = Some("u".into());
    args.remote_dir = Some("/r".into());
    args.local_dir = Some("./l".to_string());
    let json = ConnectionJsonConfig { port: Some(2121), ..Default::default() };
    assert_eq!(merge_connection(&args, &json).unwrap().port, 2121);
    args.port = Some(990);
    assert_eq!(merge_connection(&args, &json).unwrap().port, 990);
}

#[test]
fn missing_settings_reported_in_order() {
    let mut args = empty_args();
    assert_eq!(
        merge_connection(&args, &ConnectionJsonConfig::default()).unwrap_err().0,
        "missing required setting: host (use --host or config file)"
    );
    args.host = Some("h".into());
    assert_eq!(
        merge_connection(&args, &ConnectionJsonConfig::default()).unwrap_err().0,
        "missing required setting: user (use --user or config file)"
    );
    args.user = Some("u".into());
    assert_eq!(
        merge_connection(&args, &ConnectionJsonConfig::default()).unwrap_err().0,
        "missing required setting: remote-dir (use --remote-dir or config file)"
    );
    args.remote_dir = Some("/r".into());
    assert_eq!(
        merge_connection(&args, &ConnectionJsonConfig::default()).unwrap_err().0,
        "missing required setting: local-dir (use --local-dir or config file)"
    );
}

#[test]
fn json_true_flag_cannot_be_disabled_by_cli() {
    let mut args = empty_args();
    args.host = Some("h".into());
    args.user = Some("u".into());
    args.remote_dir = Some("/r".into());
    args.local_dir = Some("./l".to_string());
    let json = ConnectionJsonConfig { ftps: Some(true), insecure_tls: Some(false), ..Default::default() };
    let effective = merge_connection(&args, &json).unwrap();
    assert!(effective.ftps);
    assert!(!effective.insecure_tls);
}

#[test]
fn resolves_password_from_env_var_when_cli_absent() {
    let result = password_from_cli_or_env(None, Some("s3cr3t".to_string()));
    assert_eq!(result, Some("s3cr3t".to_string()));
}

#[test]
fn cli_password_takes_precedence_over_env_var() {
    let result = password_from_cli_or_env(Some("cli-password"), Some("env-password".to_string()));
    assert_eq!(result, Some("cli-password".to_string()));
}

#[test]
fn returns_none_when_neither_cli_nor_env_password_set() {
    let result = password_from_cli_or_env(None, None);
    assert_eq!(result, None);
}
