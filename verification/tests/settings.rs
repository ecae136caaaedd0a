use tangleaf::settings::WindowDecorationMode::{Borderless, Native};
use tangleaf::settings::{
    apply_update, default_true, default_window_controls_style, default_window_corner_radius,
    should_apply_decorations, snapshot, validate_http_url, validate_startup, validate_stored,
    validate_update, AiSearchTrigger, RuntimeSettings, SecretKey, ServerUrl, SettingsCapabilities,
    SettingsError, SettingsUpdate, StartupView, StoredSettings, WindowControlsStyle,
    WindowDecorationMode, SETTINGS_VERSION,
};
use tangleaf::window_controls::{Platform, SystemWindowControls};

fn url(text: &str) -> ServerUrl {
    ServerUrl {
        serialized: text.to_string(),
        scheme: "https".to_string(),
        host: Some("sync.example.org".to_string()),
        username: String::new(),
        password: None,
        query: None,
        fragment: None,
    }
}

fn update_from(stored: &StoredSettings) -> SettingsUpdate {
    SettingsUpdate {
        window_corner_radius: stored.window_corner_radius,
        window_decoration_mode: stored.window_decoration_mode,
        window_controls_style: stored.window_controls_style,
        startup_view: stored.startup_view,
        startup_page_uuid: stored.startup_page_uuid,
        sync_server_url: stored.sync_server_url.clone(),
        ai_search_enabled: stored.ai_search_enabled,
        ai_search_trigger: stored.ai_search_trigger,
        ai_search_rerank: stored.ai_search_rerank,
        search_debug_sources: stored.search_debug_sources,
        api_keys: Vec::new(),
        clear_keys: Vec::new(),
    }
}

fn desktop_snapshot_inputs() -> (SettingsCapabilities, SystemWindowControls) {
    (
        SettingsCapabilities::current(false, Platform::Linux),
        SystemWindowControls::right(WindowControlsStyle::Adwaita),
    )
}

#[test]
fn corner_radius_defaults_round_trips_and_rejects_excessive_values() {
    let mut stored = StoredSettings::default();
    assert_eq!(stored.window_corner_radius, 10);
    for radius in [0, 6, 10, 16, 24] {
        stored.window_corner_radius = radius;
        let restored = stored.clone();
        assert_eq!(restored.window_corner_radius, radius);
        assert!(validate_stored(&restored).is_ok());
    }
    stored.window_corner_radius = 25;
    assert!(validate_stored(&stored).is_err());
}

#[test]
fn decoration_changes_are_deferred_only_on_wayland() {
    for active in [Native, Borderless] {
        for requested in [Native, Borderless] {
            assert!(!should_apply_decorations(true, active, requested));
            assert_eq!(
                should_apply_decorations(false, active, requested),
                active != requested
            );
        }
    }
}

#[test]
fn search_preferences_round_trip_through_storage_and_snapshot() {
    let stored = StoredSettings {
        ai_search_enabled: false,
        ai_search_trigger: AiSearchTrigger::EnterOnly,
        ai_search_rerank: false,
        search_debug_sources: true,
        ..StoredSettings::default()
    };
    let restored = stored.clone();
    let (capabilities, controls) = desktop_snapshot_inputs();
    let snapshot = snapshot(restored, "settings.json".to_string(), capabilities, controls)
        .expect("snapshot");

    assert!(!snapshot.ai_search_enabled);
    assert_eq!(snapshot.ai_search_trigger, AiSearchTrigger::EnterOnly);
    assert!(!snapshot.ai_search_rerank);
    assert!(snapshot.search_debug_sources);
    assert!(snapshot.capabilities.window_decorations);
    assert!(snapshot.capabilities.window_corner_rounding);
    assert_eq!(snapshot.config_path, "settings.json");
}

#[test]
fn startup_preferences_round_trip_and_require_a_specific_page() {
    let page_uuid = 0x1234_5678_9abc_4def_8123_456789abcdefu128;
    let stored = StoredSettings {
        startup_view: StartupView::SpecificPage,
        startup_page_uuid: Some(page_uuid),
        ..StoredSettings::default()
    };
    let restored = stored.clone();
    let (capabilities, controls) = desktop_snapshot_inputs();
    let snapshot = snapshot(restored, "settings.json".to_string(), capabilities, controls)
        .expect("snapshot");

    assert_eq!(snapshot.startup_view, StartupView::SpecificPage);
    assert_eq!(snapshot.startup_page_uuid, Some(page_uuid));
    assert!(validate_startup(StartupView::SpecificPage, None).is_err());
}

#[test]
fn defaults_are_those_of_a_fresh_installation_and_are_valid() {
    let stored = StoredSettings::default();
    assert_eq!(default_window_corner_radius(), 10);
    assert_eq!(default_window_controls_style(), WindowControlsStyle::Auto);
    assert!(default_true());
    assert_eq!(stored.version, SETTINGS_VERSION);
    assert_eq!(stored.window_decoration_mode, WindowDecorationMode::Native);
    assert_eq!(stored.ai_search_trigger, AiSearchTrigger::default());
    assert_eq!(stored.startup_view, StartupView::default());
    assert_eq!(validate_stored(&stored), Ok(()));
}

#[test]
fn names_of_modes_and_styles_read_back() {
    for mode in [Native, Borderless] {
        assert_eq!(WindowDecorationMode::from_name(mode.as_str()), Some(mode));
    }
    assert_eq!(Native.as_str(), "native");
    assert_eq!(Borderless.as_str(), "borderless");
    for style in [
        WindowControlsStyle::Auto,
        WindowControlsStyle::Breeze,
        WindowControlsStyle::Adwaita,
        WindowControlsStyle::Windows,
        WindowControlsStyle::Macos,
        WindowControlsStyle::Minimal,
    ] {
        assert_eq!(WindowControlsStyle::from_name(style.as_str()), Some(style));
    }
    assert_eq!(WindowControlsStyle::Adwaita.as_str(), "adwaita");
    assert_eq!(WindowControlsStyle::from_name("aero"), None);
    assert_eq!(WindowDecorationMode::from_name("Native"), None);
}

#[test]
fn server_urls_must_be_plain_http_addresses() {
    assert_eq!(validate_http_url(&url("https://sync.example.org/")), Ok(()));
    let mut plain = url("http://sync.example.org/");
    plain.scheme = "http".to_string();
    assert_eq!(validate_http_url(&plain), Ok(()));
    let mut ftp = url("ftp://sync.example.org/");
    ftp.scheme = "ftp".to_string();
    assert_eq!(validate_http_url(&ftp), Err(SettingsError::NotHttp));
    let mut hostless = url("https:///");
    hostless.host = None;
    assert_eq!(validate_http_url(&hostless), Err(SettingsError::MissingHost));
    let mut user = url("https://me@sync.example.org/");
    user.username = "me".to_string();
    assert_eq!(validate_http_url(&user), Err(SettingsError::UrlCredentials));
    let mut password = url("https://:pw@sync.example.org/");
    password.password = Some("pw".to_string());
    assert_eq!(validate_http_url(&password), Err(SettingsError::UrlCredentials));
    let mut query = url("https://sync.example.org/?a=1");
    query.query = Some("a=1".to_string());
    assert_eq!(validate_http_url(&query), Err(SettingsError::UrlQueryOrFragment));
    let mut fragment = url("https://sync.example.org/#top");
    fragment.fragment = Some("top".to_string());
    assert_eq!(validate_http_url(&fragment), Err(SettingsError::UrlQueryOrFragment));
}

#[test]
fn stored_settings_errors_name_the_broken_rule() {
    let mut stored = StoredSettings::default();
    stored.version = 2;
    assert_eq!(validate_stored(&stored), Err(SettingsError::UnsupportedVersion(2)));
    let mut stored = StoredSettings::default();
    stored.sync_server_url = Some(url("https://sync.example.org/"));
    assert_eq!(validate_stored(&stored), Err(SettingsError::SyncTokenRequired));
    stored.sync_token = Some("   ".to_string());
    assert_eq!(validate_stored(&stored), Err(SettingsError::SyncTokenRequired));
    stored.sync_token = Some("secret".to_string());
    assert_eq!(validate_stored(&stored), Ok(()));
    let mut stored = StoredSettings::default();
    stored.startup_view = StartupView::SpecificPage;
    assert_eq!(validate_stored(&stored), Err(SettingsError::StartupPageRequired));
}

#[test]
fn an_update_takes_its_values_and_stores_secrets_trimmed() {
    let stored = StoredSettings::default();
    let mut update = update_from(&stored);
    update.window_corner_radius = 16;
    update.window_decoration_mode = Borderless;
    update.sync_server_url = Some(url("https://sync.example.org/"));
    update.api_keys = vec![(SecretKey::SyncToken, "  token  ".to_string())];
    let saved = apply_update(stored, update).expect("saved");
    assert_eq!(saved.window_corner_radius, 16);
    assert_eq!(saved.window_decoration_mode, Borderless);
    assert_eq!(saved.sync_token.as_deref(), Some("token"));
    let runtime = RuntimeSettings { stored: saved.clone() };
    let (server, token) = runtime.sync_credentials().expect("credentials").expect("configured");
    assert_eq!(server.serialized, "https://sync.example.org/");
    assert_eq!(token, "token");

    let mut blank_update = update_from(&saved);
    blank_update.api_keys = vec![(SecretKey::SyncToken, "   ".to_string())];
    let kept = apply_update(saved.clone(), blank_update).expect("kept");
    assert_eq!(kept.sync_token.as_deref(), Some("token"));

    let mut clearing = update_from(&saved);
    clearing.clear_keys = vec![SecretKey::SyncToken];
    assert_eq!(apply_update(saved, clearing).err(), Some(SettingsError::SyncTokenRequired));
}

#[test]
fn an_invalid_update_is_refused_before_anything_is_stored() {
    let stored = StoredSettings::default();
    let mut update = update_from(&stored);
    update.window_corner_radius = 30;
    assert_eq!(validate_update(&update), Err(SettingsError::CornerRadiusOutOfRange));
    assert_eq!(
        apply_update(stored.clone(), update).err(),
        Some(SettingsError::CornerRadiusOutOfRange)
    );
    let mut update = update_from(&stored);
    update.startup_view = StartupView::SpecificPage;
    assert_eq!(validate_update(&update), Err(SettingsError::StartupPageRequired));
}

#[test]
fn a_snapshot_shows_a_configured_token_without_revealing_it() {
    let mut stored = StoredSettings::default();
    stored.sync_server_url = Some(url("https://sync.example.org/"));
    stored.sync_token = Some("secret".to_string());
    let (capabilities, controls) = desktop_snapshot_inputs();
    let snap = snapshot(stored, "settings.json".to_string(), capabilities, controls.clone())
        .expect("snapshot");
    assert_eq!(snap.configured_keys, vec![SecretKey::SyncToken]);
    assert_eq!(snap.system_window_controls, controls);
    assert_eq!(snap.active_window_decoration_mode, Native);
    let live = snap.with_window_state(Borderless, true);
    assert_eq!(live.active_window_decoration_mode, Borderless);
    assert!(live.window_decorations_require_restart);
    assert_eq!(live.window_decoration_mode, Native);

    let mut invalid = StoredSettings::default();
    invalid.window_corner_radius = 99;
    let (capabilities, controls) = desktop_snapshot_inputs();
    assert_eq!(
        snapshot(invalid, "settings.json".to_string(), capabilities, controls).err(),
        Some(SettingsError::CornerRadiusOutOfRange)
    );
}

#[test]
fn capabilities_follow_the_platform() {
    let windows = SettingsCapabilities::current(false, Platform::Windows);
    assert!(windows.window_decorations && windows.window_corner_rounding);
    let macos = SettingsCapabilities::current(false, Platform::Macos);
    assert!(macos.window_decorations && !macos.window_corner_rounding);
    let mobile = SettingsCapabilities::current(true, Platform::Other);
    assert!(!mobile.window_decorations && !mobile.window_corner_rounding);
}

#[test]
fn runtime_without_a_server_has_no_credentials() {
    let runtime = RuntimeSettings { stored: StoredSettings::default() };
    assert_eq!(runtime.sync_credentials().expect("no error").is_none(), true);
}
