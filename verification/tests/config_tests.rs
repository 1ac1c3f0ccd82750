use lazymc::config::{
    collect_env_config, config_version_state, deep_merge, has_env_config, infer_toml_value,
    insert_nested, Advanced, ConfigConfig, Join, JoinHold, JoinLobby, Lockout, Method, Rcon,
    Time, TomlValue, VersionCheck,
};

fn table_get<'a>(table: &'a [(String, TomlValue)], key: &str) -> &'a TomlValue {
    for (k, v) in table {
        if k == key {
            return v;
        }
    }
    panic!("missing key: {}", key);
}

fn as_table(v: &TomlValue) -> &[(String, TomlValue)] {
    match v {
        TomlValue::Table(t) => t,
        _ => panic!("not a table"),
    }
}

fn as_str(v: &TomlValue) -> &str {
    match v {
        TomlValue::Str(s) => s,
        _ => panic!("not a string"),
    }
}

#[test]
fn test_infer_toml_value_boolean() {
    assert_eq!(infer_toml_value("true"), TomlValue::Bool(true));
    assert_eq!(infer_toml_value("false"), TomlValue::Bool(false));
    assert_eq!(infer_toml_value("TRUE"), TomlValue::Bool(true));
    assert_eq!(infer_toml_value("False"), TomlValue::Bool(false));
}

#[test]
fn test_infer_toml_value_integer() {
    assert_eq!(infer_toml_value("42"), TomlValue::Int(42));
    assert_eq!(infer_toml_value("0"), TomlValue::Int(0));
    assert_eq!(infer_toml_value("-10"), TomlValue::Int(-10));
}

#[test]
fn test_infer_toml_value_float() {
    assert_eq!(infer_toml_value("3.14"), TomlValue::Float("3.14".to_string()));
    assert_eq!("3.14".parse::<f64>().unwrap(), 3.14);
}

#[test]
fn test_infer_toml_value_ip_address_is_string() {
    // IP addresses like 127.0.0.1:25565 should not parse as float
    assert_eq!(
        infer_toml_value("127.0.0.1:25565"),
        TomlValue::Str("127.0.0.1:25565".into())
    );
}

#[test]
fn test_infer_toml_value_string() {
    assert_eq!(
        infer_toml_value("hello world"),
        TomlValue::Str("hello world".into())
    );
    assert_eq!(
        infer_toml_value("java -jar server.jar"),
        TomlValue::Str("java -jar server.jar".into())
    );
}

#[test]
fn test_infer_toml_value_comma_array() {
    let val = infer_toml_value("hold,kick");
    assert_eq!(
        val,
        TomlValue::Array(vec![
            TomlValue::Str("hold".into()),
            TomlValue::Str("kick".into()),
        ])
    );
}

#[test]
fn test_infer_toml_value_comma_array_integers() {
    let val = infer_toml_value("1,2,3");
    assert_eq!(
        val,
        TomlValue::Array(vec![
            TomlValue::Int(1),
            TomlValue::Int(2),
            TomlValue::Int(3),
        ])
    );
}

#[test]
fn test_deep_merge_basic() {
    let base = TomlValue::Table(vec![(
        "server".to_string(),
        TomlValue::Table(vec![
            (
                "command".to_string(),
                TomlValue::Str("java -jar server.jar".into()),
            ),
            (
                "address".to_string(),
                TomlValue::Str("127.0.0.1:25566".into()),
            ),
        ]),
    )]);

    let overlay = TomlValue::Table(vec![(
        "server".to_string(),
        TomlValue::Table(vec![(
            "address".to_string(),
            TomlValue::Str("127.0.0.1:25577".into()),
        )]),
    )]);

    let merged = deep_merge(base, overlay);
    let table = as_table(&merged);
    let server = as_table(table_get(table, "server"));
    assert_eq!(as_str(table_get(server, "command")), "java -jar server.jar");
    assert_eq!(as_str(table_get(server, "address")), "127.0.0.1:25577");
}

#[test]
fn test_deep_merge_adds_new_keys() {
    let base = TomlValue::Table(vec![(
        "server".to_string(),
        TomlValue::Table(vec![(
            "command".to_string(),
            TomlValue::Str("java -jar server.jar".into()),
        )]),
    )]);

    let overlay = TomlValue::Table(vec![(
        "rcon".to_string(),
        TomlValue::Table(vec![(
            "password".to_string(),
            TomlValue::Str("secret".into()),
        )]),
    )]);

    let merged = deep_merge(base, overlay);
    let table = as_table(&merged);
    let server = as_table(table_get(table, "server"));
    assert_eq!(as_str(table_get(server, "command")), "java -jar server.jar");
    let rcon = as_table(table_get(table, "rcon"));
    assert_eq!(as_str(table_get(rcon, "password")), "secret");
}

#[test]
fn test_insert_nested() {
    let mut root: Vec<(String, TomlValue)> = Vec::new();
    insert_nested(
        &mut root,
        &["server".to_string(), "address".to_string()],
        TomlValue::Str("127.0.0.1:25566".into()),
    );
    insert_nested(
        &mut root,
        &["server".to_string(), "command".to_string()],
        TomlValue::Str("java -jar server.jar".into()),
    );
    insert_nested(
        &mut root,
        &["rcon".to_string(), "password".to_string()],
        TomlValue::Str("secret".into()),
    );

    let server = as_table(table_get(&root, "server"));
    assert_eq!(as_str(table_get(server, "address")), "127.0.0.1:25566");
    assert_eq!(as_str(table_get(server, "command")), "java -jar server.jar");
    let rcon = as_table(table_get(&root, "rcon"));
    assert_eq!(as_str(table_get(rcon, "password")), "secret");
}

#[test]
fn test_collect_env_config() {
    let vars: Vec<(String, String)> = vec![
        (
            "LAZYMC_SERVER__COMMAND".to_string(),
            "java -jar test.jar".to_string(),
        ),
        (
            "LAZYMC_SERVER__ADDRESS".to_string(),
            "127.0.0.1:25577".to_string(),
        ),
        ("LAZYMC_RCON__ENABLED".to_string(), "true".to_string()),
    ];

    let value = collect_env_config(&vars);
    let table = as_table(&value);

    let server = as_table(table_get(table, "server"));
    assert_eq!(as_str(table_get(server, "command")), "java -jar test.jar");
    assert_eq!(as_str(table_get(server, "address")), "127.0.0.1:25577");
    let rcon = as_table(table_get(table, "rcon"));
    assert_eq!(table_get(rcon, "enabled"), &TomlValue::Bool(true));
}

#[test]
fn test_infer_toml_value_bracket_single_element_array() {
    let val = infer_toml_value("[kick]");
    assert_eq!(val, TomlValue::Array(vec![TomlValue::Str("kick".into())]));
}

#[test]
fn test_infer_toml_value_bracket_multi_element_array() {
    let val = infer_toml_value("[hold, kick]");
    assert_eq!(
        val,
        TomlValue::Array(vec![
            TomlValue::Str("hold".into()),
            TomlValue::Str("kick".into()),
        ])
    );
}

#[test]
fn test_infer_toml_value_bracket_empty_array() {
    let val = infer_toml_value("[]");
    assert_eq!(val, TomlValue::Array(vec![]));
}

#[test]
fn test_deep_merge_scalar_into_array() {
    let base = TomlValue::Table(vec![(
        "join".to_string(),
        TomlValue::Table(vec![(
            "methods".to_string(),
            TomlValue::Array(vec![
                TomlValue::Str("hold".into()),
                TomlValue::Str("kick".into()),
            ]),
        )]),
    )]);

    let overlay = TomlValue::Table(vec![(
        "join".to_string(),
        TomlValue::Table(vec![(
            "methods".to_string(),
            TomlValue::Str("kick".into()),
        )]),
    )]);

    let merged = deep_merge(base, overlay);
    let join = as_table(table_get(as_table(&merged), "join"));
    let methods = match table_get(join, "methods") {
        TomlValue::Array(items) => items,
        _ => panic!("not an array"),
    };
    assert_eq!(methods.len(), 1);
    assert_eq!(methods[0], TomlValue::Str("kick".into()));
}

#[test]
fn test_unescape_basic_sequences() {
    assert_eq!(lazymc::text::unescape_basic("a\\nb"), "a\nb");
    assert_eq!(lazymc::text::unescape_basic("a\\tb"), "a\tb");
    assert_eq!(lazymc::text::unescape_basic("a\\\\b"), "a\\b");
    assert_eq!(lazymc::text::unescape_basic("a\\qb"), "a\\qb");
    assert_eq!(lazymc::text::unescape_basic("trailing\\"), "trailing\\");
    assert_eq!(lazymc::text::unescape_basic(""), "");
}

#[test]
fn test_infer_float_with_exponent() {
    assert_eq!(
        infer_toml_value("1.5e3"),
        TomlValue::Float("1.5e3".to_string())
    );
    assert_eq!("1.5e3".parse::<f64>().unwrap(), 1500.0);
    // two dots never parse as a float
    assert_eq!(
        infer_toml_value("1.2.3"),
        TomlValue::Str("1.2.3".into())
    );
}

#[test]
fn test_has_env_config_detection() {
    let none: Vec<(String, String)> = vec![("PATH".to_string(), "/bin".to_string())];
    assert!(!has_env_config(&none));
    let some: Vec<(String, String)> = vec![
        ("PATH".to_string(), "/bin".to_string()),
        ("LAZYMC_SERVER__COMMAND".to_string(), "java".to_string()),
    ];
    assert!(has_env_config(&some));
}

#[test]
fn test_insert_nested_blocked_by_scalar() {
    let mut root: Vec<(String, TomlValue)> = Vec::new();
    insert_nested(&mut root, &["server".to_string()], TomlValue::Bool(true));
    insert_nested(
        &mut root,
        &["server".to_string(), "address".to_string()],
        TomlValue::Str("x".into()),
    );
    // the scalar under "server" blocks the nested insertion silently
    assert_eq!(root.len(), 1);
    assert_eq!(table_get(&root, "server"), &TomlValue::Bool(true));
}

#[test]
fn test_config_version_states() {
    assert_eq!(config_version_state(&None), VersionCheck::Unknown);
    assert_eq!(
        config_version_state(&Some("0.2.8".to_string())),
        VersionCheck::Current
    );
    assert_eq!(
        config_version_state(&Some("0.3.0".to_string())),
        VersionCheck::Current
    );
    assert_eq!(
        config_version_state(&Some("0.1.0".to_string())),
        VersionCheck::Older
    );
}

#[test]
fn test_config_defaults() {
    let time = Time::default();
    assert_eq!(time.sleep_after, 60);
    assert_eq!(time.min_online_time, 60);
    let server = lazymc::config::Server::default();
    assert_eq!(server.start_timeout, 300);
    assert_eq!(server.stop_timeout, 300);
    assert!(server.freeze_process);
    assert!(!server.wake_on_start);
    let hold = JoinHold::default();
    assert_eq!(hold.timeout, 25);
    let lobby = JoinLobby::default();
    assert_eq!(lobby.timeout, 600);
    let rcon = Rcon::default();
    assert_eq!(rcon.port, 25575);
    assert!(rcon.randomize_password);
    let lockout = Lockout::default();
    assert!(!lockout.enabled);
    let advanced = Advanced::default();
    assert!(advanced.rewrite_server_properties);
    let cc = ConfigConfig::default();
    assert!(cc.version.is_none());
    // by default a joining client is held, then kicked, and every join
    // sub-configuration carries its own default
    let join = Join::default();
    assert_eq!(join.methods, vec![Method::Hold, Method::Kick]);
    assert_eq!(join.hold.timeout, 25);
    assert!(join.kick.starting.starts_with("Server is starting"));
    assert!(join.kick.stopping.starts_with("Server is going to sleep"));
    assert_eq!(join.forward.address, "127.0.0.1:25565");
    assert!(!join.forward.send_proxy_v2);
    assert_eq!(join.lobby.timeout, 600);
    assert!(join.lobby.message.contains("Server is starting"));
    assert_eq!(join.lobby.ready_sound.as_deref(), Some("block.note_block.chime"));
}
