use rhinolabs_core::mask_key;
use rhinolabs_core::ErrorKind;
use rhinolabs_core::Manifest;
use rhinolabs_core::McpConfig;
use rhinolabs_core::McpConfigManager;
use rhinolabs_core::McpServer;
use rhinolabs_core::McpSettings;
use rhinolabs_core::Paths;
use rhinolabs_core::PluginManifest;
use rhinolabs_core::Rag;
use rhinolabs_core::RagConfig;
use rhinolabs_core::RagSettings;

#[test]
fn test_plugin_manifest_default() {
    let manifest = PluginManifest::default();

    assert_eq!(manifest.name, "rhinolabs-plugin");
    assert_eq!(manifest.version, "1.0.0");
    assert_eq!(manifest.author.name, "Rhinolabs");
}

#[test]
fn test_manifest_path() {
    let path = Manifest::manifest_path("/home/user");

    assert!(path.contains("plugin.json"));
    assert!(path.contains(".plugin"));
}

#[test]
fn test_manifest_get_and_update() {
    let mut state: Option<PluginManifest> = None;
    assert_eq!(Manifest::get(&state).unwrap_err().kind(), ErrorKind::NotFound);

    state = Some(PluginManifest::default());
    let got = Manifest::get(&state).unwrap();
    assert_eq!(got.name, "rhinolabs-plugin");

    let mut next = PluginManifest::default();
    next.version = String::from("2.0.0");
    Manifest::update(&mut state, &next).unwrap();
    assert_eq!(Manifest::get(&state).unwrap().version, "2.0.0");

    let mut missing: Option<PluginManifest> = None;
    assert_eq!(Manifest::update(&mut missing, &next).unwrap_err().kind(), ErrorKind::NotFound);
}

#[test]
fn test_mcp_config_default() {
    let config = McpConfig::default();

    assert!(config.mcp_servers.is_empty());
    assert_eq!(config.settings.default_timeout, 30000);
    assert_eq!(config.settings.retry_attempts, 3);
    assert_eq!(config.settings.log_level, "info");
}

#[test]
fn test_mcp_settings_default() {
    let settings = McpSettings::default();

    assert_eq!(settings.default_timeout, 30000);
    assert_eq!(settings.retry_attempts, 3);
    assert_eq!(settings.log_level, "info");
}

#[test]
fn test_mcp_config_path() {
    let path = McpConfigManager::config_path("/home/user");
    assert!(path.contains(".mcp.json"));
}

#[test]
fn test_mcp_server_stdio() {
    let server = McpServer::stdio(
        String::from("npx"),
        vec![String::from("-y"), String::from("@modelcontextprotocol/server-git")],
    );
    assert_eq!(server.command.as_deref(), Some("npx"));
    assert_eq!(server.args.len(), 2);
    assert!(server.is_stdio());
    assert!(!server.is_http());
}

#[test]
fn test_mcp_server_http() {
    let server = McpServer::http(String::from("https://example.com/mcp"));
    assert_eq!(server.url.as_deref(), Some("https://example.com/mcp"));
    assert_eq!(server.transport.as_deref(), Some("http"));
    assert!(server.is_http());
    assert!(!server.is_stdio());
}

#[test]
fn test_mcp_server_management() {
    let mut config = McpConfig::default();
    McpConfigManager::add_server(&mut config, "git", McpServer::stdio(String::from("npx"), vec![]))
        .unwrap();
    assert_eq!(
        McpConfigManager::add_server(
            &mut config,
            "git",
            McpServer::stdio(String::from("other"), vec![])
        )
        .unwrap_err()
        .kind(),
        ErrorKind::AlreadyExists
    );
    let got = McpConfigManager::get_server(&config, "git").unwrap();
    assert_eq!(got.command.as_deref(), Some("npx"));
    assert!(McpConfigManager::get_server(&config, "ghost").is_none());

    McpConfigManager::update_server(
        &mut config,
        "git",
        McpServer::http(String::from("https://example.com")),
    )
    .unwrap();
    let got = McpConfigManager::get_server(&config, "git").unwrap();
    assert_eq!(got.url.as_deref(), Some("https://example.com"));
    assert_eq!(
        McpConfigManager::update_server(
            &mut config,
            "ghost",
            McpServer::http(String::from("https://x"))
        )
        .unwrap_err()
        .kind(),
        ErrorKind::NotFound
    );

    assert_eq!(McpConfigManager::list_servers(&config).len(), 1);
    McpConfigManager::remove_server(&mut config, "git").unwrap();
    assert!(McpConfigManager::get_server(&config, "git").is_none());
    assert_eq!(
        McpConfigManager::remove_server(&mut config, "git").unwrap_err().kind(),
        ErrorKind::NotFound
    );
}

#[test]
fn test_mcp_settings_update() {
    let mut config = McpConfig::default();
    let settings = McpSettings {
        default_timeout: 5000,
        retry_attempts: 1,
        log_level: String::from("debug"),
    };
    McpConfigManager::update_settings(&mut config, settings);
    let got = McpConfigManager::get_settings(&config);
    assert_eq!(got.default_timeout, 5000);
    assert_eq!(got.retry_attempts, 1);
    assert_eq!(got.log_level, "debug");
}

#[test]
fn test_rag_settings_default() {
    let settings = RagSettings::default();
    assert!(settings.default_mcp_url.is_none());
    assert!(settings.admin_key.is_none());
}

#[test]
fn test_project_config_path() {
    let config_path = Rag::project_config_path("/home/user/my-project");
    assert_eq!(config_path, "/home/user/my-project/.rhinolabs/rag.json");
}

#[test]
fn test_get_mcp_url_default() {
    let config = RagConfig {
        project_id: String::from("test"),
        api_key: String::from("rl_xxx"),
        mcp_url: None,
    };

    let url = Rag::get_mcp_url(&config, &RagSettings::default());
    assert_eq!(url, "https://rhinolabs-rag-mcp.rhinolabs.workers.dev");
}

#[test]
fn test_get_mcp_url_from_config() {
    let config = RagConfig {
        project_id: String::from("test"),
        api_key: String::from("rl_xxx"),
        mcp_url: Some(String::from("https://custom.workers.dev")),
    };

    let url = Rag::get_mcp_url(&config, &RagSettings::default());
    assert_eq!(url, "https://custom.workers.dev");
}

#[test]
fn test_get_mcp_url_from_settings() {
    let config = RagConfig {
        project_id: String::from("test"),
        api_key: String::from("rl_xxx"),
        mcp_url: None,
    };
    let settings = RagSettings {
        default_mcp_url: Some(String::from("https://global.workers.dev")),
        admin_key: None,
    };
    assert_eq!(Rag::get_mcp_url(&config, &settings), "https://global.workers.dev");
}

#[test]
fn test_rag_init_and_remove() {
    let mut state: Option<RagConfig> = None;
    assert!(!Rag::is_configured(&state));
    assert_eq!(Rag::remove(&mut state).unwrap_err().kind(), ErrorKind::NotFound);

    let config = Rag::init(&state, "my-project", "rl_test123").unwrap();
    assert_eq!(config.project_id, "my-project");
    assert_eq!(config.api_key, "rl_test123");
    assert!(config.mcp_url.is_none());

    state = Some(config);
    assert!(Rag::is_configured(&state));
    assert_eq!(Rag::init(&state, "other", "rl_x").unwrap_err().kind(), ErrorKind::AlreadyExists);

    Rag::remove(&mut state).unwrap();
    assert!(!Rag::is_configured(&state));
}

#[test]
fn test_rag_admin_key() {
    let mut settings = RagSettings::default();
    assert!(Rag::get_admin_key(&settings).is_none());
    Rag::set_admin_key(&mut settings, "admin_secret_123");
    assert_eq!(Rag::get_admin_key(&settings).as_deref(), Some("admin_secret_123"));
}

#[test]
fn test_rag_settings_path() {
    assert_eq!(
        Rag::settings_path("/home/user"),
        "/home/user/.config/rhinolabs-ai/rag-settings.json"
    );
}

#[test]
fn test_mask_key_short_and_long() {
    assert_eq!(mask_key("rl_abc"), "******");
    assert_eq!(mask_key("rl_abc123def456"), "rl_abc1...f456");
    assert_eq!(mask_key(""), "");
}

#[test]
fn test_paths() {
    assert_eq!(Paths::plugin_dir("/home/user"), "/home/user/.rhinolabs");
    assert_eq!(Paths::mcp_config_path("/home/user"), "/home/user/.rhinolabs/.mcp.json");
    assert_eq!(Paths::rhinolabs_config_dir("/home/user"), "/home/user/.config/rhinolabs-ai");
    assert!(Paths::home_or_err(Some(String::from("/h"))).is_ok());
    assert_eq!(Paths::home_or_err(None).unwrap_err().kind(), ErrorKind::Configuration);
}
