use warehouse::catalog::{CatalogId, ALL_CATALOGS};
use warehouse::config::{
    bind_var, catalogs_var, config_from_vars, default_max_age, duration_var, max_age_var,
    token_var, Config, ConfigError, RawSettings,
};
use warehouse::time::Span;

#[test]
fn unset_catalog_list_selects_all() {
    assert_eq!(catalogs_var(None).unwrap(), ALL_CATALOGS.to_vec());
}

#[test]
fn catalog_list_is_trimmed_and_deduplicated() {
    assert_eq!(
        catalogs_var(Some(" java , node,,java,\tminecraft-proxy ")).unwrap(),
        vec![CatalogId::Java, CatalogId::Node, CatalogId::MinecraftProxy]
    );
}

#[test]
fn catalog_list_names_the_unknown_catalog() {
    assert_eq!(
        catalogs_var(Some("go, ruby ,bogus")),
        Err(ConfigError::UnknownCatalog {
            name: "ruby".to_string()
        })
    );
}

#[test]
fn catalog_list_must_select_something() {
    assert_eq!(catalogs_var(Some("")), Err(ConfigError::NoCatalogs));
    assert_eq!(catalogs_var(Some(" , ,")), Err(ConfigError::NoCatalogs));
}

#[test]
fn default_ages() {
    assert_eq!(default_max_age(CatalogId::Minecraft), 604_800);
    for id in ALL_CATALOGS.iter().skip(1) {
        assert_eq!(default_max_age(*id), 86_400);
    }
}

#[test]
fn max_age_variable_names() {
    assert_eq!(max_age_var(CatalogId::Minecraft), "WAREHOUSE_MAX_AGE_MINECRAFT");
    assert_eq!(max_age_var(CatalogId::MinecraftProxy), "WAREHOUSE_MAX_AGE_MINECRAFT_PROXY");
    assert_eq!(max_age_var(CatalogId::Go), "WAREHOUSE_MAX_AGE_GO");
}

#[test]
fn duration_variables_hold_seconds() {
    assert_eq!(duration_var("WAREHOUSE_RETRY_BASE", None, 60), Ok(Span::from_secs(60)));
    assert_eq!(duration_var("WAREHOUSE_RETRY_BASE", Some("90"), 60), Ok(Span::from_secs(90)));
    assert_eq!(
        duration_var("WAREHOUSE_RETRY_MAX", Some("1h"), 3600),
        Err(ConfigError::NotSeconds {
            variable: "WAREHOUSE_RETRY_MAX".to_string(),
            raw: "1h".to_string()
        })
    );
    assert!(duration_var("X", Some(" 5"), 1).is_err());
    assert!(duration_var("X", Some("18446744073709551616"), 1).is_err());
    assert_eq!(
        duration_var("X", Some("18446744073709551615"), 1),
        Ok(Span::from_secs(u64::MAX))
    );
}

#[test]
fn empty_token_means_none() {
    assert_eq!(token_var(None), None);
    assert_eq!(token_var(Some(String::new())), None);
    assert_eq!(token_var(Some("s3cret".to_string())), Some("s3cret".to_string()));
}

#[test]
fn configured_max_age_overrides_default() {
    let config = Config {
        token: None,
        data_dir: "./data".to_string(),
        user_agent: "warehouse/0.1.0".to_string(),
        catalogs: vec![CatalogId::Go, CatalogId::Minecraft],
        docker_min_interval: Span::from_secs(3600),
        refresh_jitter: Span::from_secs(600),
        retry_base: Span::from_secs(60),
        retry_max: Span::from_secs(3600),
        max_age: vec![(CatalogId::Go, Span::from_secs(10))],
    };
    assert_eq!(config.max_age(CatalogId::Go), Span::from_secs(10));
    assert_eq!(config.max_age(CatalogId::Minecraft), Span::from_secs(604_800));
}

fn unset() -> RawSettings {
    RawSettings {
        token: None,
        data_dir: None,
        user_agent: None,
        catalogs: None,
        max_age: vec![None; 7],
        docker_min_interval: None,
        refresh_jitter: None,
        retry_base: None,
        retry_max: None,
    }
}

#[test]
fn unset_variables_take_their_defaults() {
    let c = config_from_vars(&unset(), "0.0.0.0:8080", true).unwrap();
    assert_eq!(c.catalogs, ALL_CATALOGS.to_vec());
    assert_eq!(c.token, None);
    assert_eq!(c.data_dir, "./data");
    assert_eq!(c.user_agent, "warehouse/0.1.0 (+https://github.com/InvalidJoker/warehouse)");
    assert_eq!(c.docker_min_interval, Span::from_secs(3600));
    assert_eq!(c.refresh_jitter, Span::from_secs(600));
    assert_eq!(c.retry_base, Span::from_secs(60));
    assert_eq!(c.retry_max, Span::from_secs(3600));
    assert_eq!(c.max_age.len(), 7);
    assert_eq!(c.max_age[0], (CatalogId::Minecraft, Span::from_secs(604_800)));
    assert_eq!(c.max_age[6], (CatalogId::Rust, Span::from_secs(86_400)));
    assert_eq!(bind_var(None), "0.0.0.0:8080");
    assert_eq!(bind_var(Some("127.0.0.1:9".to_string())), "127.0.0.1:9");
}

#[test]
fn set_variables_are_read() {
    let mut raw = unset();
    raw.token = Some("t0ken".to_string());
    raw.data_dir = Some("/data".to_string());
    raw.catalogs = Some("rust, go".to_string());
    raw.max_age[CatalogId::Go.rank()] = Some("120".to_string());
    raw.max_age[CatalogId::Java.rank()] = Some("not read".to_string());
    raw.retry_base = Some("5".to_string());
    let c = config_from_vars(&raw, "[::]:80", true).unwrap();
    assert_eq!(c.token.as_deref(), Some("t0ken"));
    assert_eq!(c.data_dir, "/data");
    assert_eq!(c.catalogs, vec![CatalogId::Rust, CatalogId::Go]);
    assert_eq!(
        c.max_age,
        vec![(CatalogId::Rust, Span::from_secs(86_400)), (CatalogId::Go, Span::from_secs(120))]
    );
    assert_eq!(c.retry_base, Span::from_secs(5));
}

#[test]
fn the_first_unreadable_variable_is_named() {
    let mut raw = unset();
    raw.catalogs = Some("node,python".to_string());
    raw.max_age[CatalogId::Python.rank()] = Some("x".to_string());
    raw.max_age[CatalogId::Node.rank()] = Some("-1".to_string());
    raw.retry_max = Some("soon".to_string());
    assert_eq!(
        config_from_vars(&raw, "bad", false).unwrap_err(),
        ConfigError::NotSeconds {
            variable: "WAREHOUSE_MAX_AGE_NODE".to_string(),
            raw: "-1".to_string()
        }
    );
    raw.max_age[CatalogId::Node.rank()] = None;
    raw.max_age[CatalogId::Python.rank()] = None;
    assert_eq!(
        config_from_vars(&raw, "bad", false).unwrap_err(),
        ConfigError::BadAddress { raw: "bad".to_string() }
    );
    assert_eq!(
        config_from_vars(&raw, "0.0.0.0:1", true).unwrap_err(),
        ConfigError::NotSeconds {
            variable: "WAREHOUSE_RETRY_MAX".to_string(),
            raw: "soon".to_string()
        }
    );
    raw.catalogs = Some("ruby".to_string());
    assert_eq!(
        config_from_vars(&raw, "bad", false).unwrap_err(),
        ConfigError::UnknownCatalog { name: "ruby".to_string() }
    );
}
