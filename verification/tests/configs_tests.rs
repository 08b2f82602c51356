use munnel::configs::{
    add_server_config, get_config_file_path, get_log_config_file_path, get_server_config_key,
    merge_server_configs, parse_server_config_line, split_spaces, ConfigError, ServerConfig,
    ServerConfigs,
};

fn config(name: &str, group: &str, bind: &str, dest: &str) -> ServerConfig {
    ServerConfig {
        service_name: name.to_string(),
        agent_group_name: group.to_string(),
        server_bind_endpoint: bind.to_string(),
        agent_service_endpoint: dest.to_string(),
    }
}

#[test]
fn key_joins_name_and_group() {
    let k = get_server_config_key(&"web".to_string(), &"g1".to_string());
    assert_eq!(k, "web:g1".to_string());
    let k2 = get_server_config_key(&"web".to_string(), &"".to_string());
    assert_eq!(k2, "web:".to_string());
}

#[test]
fn split_spaces_cuts_at_every_space() {
    let t = split_spaces(&"a b c".to_string());
    assert_eq!(t, vec!["a".to_string(), "b".to_string(), "c".to_string()]);
    let t2 = split_spaces(&"".to_string());
    assert_eq!(t2, vec!["".to_string()]);
    let t3 = split_spaces(&"a  b".to_string());
    assert_eq!(t3, vec!["a".to_string(), "".to_string(), "b".to_string()]);
}

#[test]
fn parse_config_line_reads_four_fields() {
    let line = "web g1 127.0.0.1:18080 127.0.0.1:9000".to_string();
    let c = parse_server_config_line(&line).unwrap();
    assert_eq!(c.service_name, "web".to_string());
    assert_eq!(c.agent_group_name, "g1".to_string());
    assert_eq!(c.server_bind_endpoint, "127.0.0.1:18080".to_string());
    assert_eq!(c.agent_service_endpoint, "127.0.0.1:9000".to_string());
}

#[test]
fn parse_config_line_rejects_short_lines() {
    let line = "web g1 127.0.0.1:18080".to_string();
    assert!(matches!(parse_server_config_line(&line), Err(ConfigError::MissingFields)));
    assert!(matches!(parse_server_config_line(&"".to_string()), Err(ConfigError::MissingFields)));
}

#[test]
fn parse_config_line_ignores_extra_fields() {
    let line = "web g1 b d extra".to_string();
    let c = parse_server_config_line(&line).unwrap();
    assert_eq!(c.agent_service_endpoint, "d".to_string());
}

#[test]
fn duplicate_config_is_discarded() {
    let mut set = ServerConfigs::new();
    assert!(add_server_config(&config("web", "g1", "b1", "d1"), &mut set));
    assert!(!add_server_config(&config("web", "g1", "b2", "d2"), &mut set));
    assert_eq!(set.len(), 1);
    assert_eq!(set.items[0].server_bind_endpoint, "b1".to_string());
    // Same name under another group is a different service identity.
    assert!(add_server_config(&config("web", "g2", "b3", "d3"), &mut set));
    assert_eq!(set.len(), 2);
}

#[test]
fn merge_keeps_first_owner_of_a_key() {
    let mut base = ServerConfigs::new();
    add_server_config(&config("a", "", "b1", "d1"), &mut base);
    let mut extra = ServerConfigs::new();
    add_server_config(&config("a", "", "b9", "d9"), &mut extra);
    add_server_config(&config("b", "g", "b2", "d2"), &mut extra);
    merge_server_configs(&mut base, &extra);
    assert_eq!(base.len(), 2);
    assert_eq!(base.items[0].server_bind_endpoint, "b1".to_string());
    assert_eq!(base.items[1].service_name, "b".to_string());
}

#[test]
fn config_paths_join_directory_and_file() {
    assert_eq!(get_config_file_path(&"/etc/app".to_string()), "/etc/app/munnel.ini".to_string());
    assert_eq!(
        get_log_config_file_path(&"/etc/app".to_string()),
        "/etc/app/log4rs.yaml".to_string()
    );
}
