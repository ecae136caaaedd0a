//! Device settings: the stored file's shape, its validation, and what the UI is shown.

use vstd::prelude::*;
use crate::text::{blank, chars_of, is_blank, range_eq, trim, trim_str};
use crate::window_controls::{Platform, SystemWindowControls};

verus! {

/// Whether the main window has the platform's frame or draws its own.
#[derive(Debug, Clone, Copy, PartialEq, Eq, Structural)]
pub enum WindowDecorationMode {
    Native,
    Borderless,
}

/// Which look borderless mode gives its window buttons.
#[derive(Debug, Clone, Copy, PartialEq, Eq, Structural)]
pub enum WindowControlsStyle {
    Auto,
    Breeze,
    Adwaita,
    Windows,
    Macos,
    Minimal,
}

pub open spec fn decoration_mode_name(m: WindowDecorationMode) -> Seq<char> {
    match m {
        WindowDecorationMode::Native => seq!['n', 'a', 't', 'i', 'v', 'e'],
        WindowDecorationMode::Borderless => seq!['b', 'o', 'r', 'd', 'e', 'r', 'l', 'e', 's', 's'],
    }
}

pub open spec fn controls_style_name(s: WindowControlsStyle) -> Seq<char> {
    match s {
        WindowControlsStyle::Auto => seq!['a', 'u', 't', 'o'],
        WindowControlsStyle::Breeze => seq!['b', 'r', 'e', 'e', 'z', 'e'],
        WindowControlsStyle::Adwaita => seq!['a', 'd', 'w', 'a', 'i', 't', 'a'],
        WindowControlsStyle::Windows => seq!['w', 'i', 'n', 'd', 'o', 'w', 's'],
        WindowControlsStyle::Macos => seq!['m', 'a', 'c', 'o', 's'],
        WindowControlsStyle::Minimal => seq!['m', 'i', 'n', 'i', 'm', 'a', 'l'],
    }
}

impl WindowDecorationMode {
    /// The name the settings file and the UI use for this mode.
    pub fn as_str(self) -> (r: &'static str)
        ensures
            r@ == decoration_mode_name(self),
    {
        match self {
            WindowDecorationMode::Native => {
                proof {
                    reveal_strlit("native");
                }
                "native"
            },
            WindowDecorationMode::Borderless => {
                proof {
                    reveal_strlit("borderless");
                }
                "borderless"
            },
        }
    }

    /// The mode with this name, if any.
    pub fn from_name(value: &str) -> (r: Option<Self>)
        ensures
            match r {
                Some(m) => decoration_mode_name(m) == value@,
                None => forall|m: WindowDecorationMode| decoration_mode_name(m) != value@,
            },
    {
        let v = chars_of(value);
        let native = chars_of(WindowDecorationMode::Native.as_str());
        let borderless = chars_of(WindowDecorationMode::Borderless.as_str());
        if range_eq(v.as_slice(), 0, v.len(), native.as_slice()) {
            assert(v@.subrange(0, v@.len() as int) =~= v@);
            Some(WindowDecorationMode::Native)
        } else if range_eq(v.as_slice(), 0, v.len(), borderless.as_slice()) {
            assert(v@.subrange(0, v@.len() as int) =~= v@);
            Some(WindowDecorationMode::Borderless)
        } else {
            assert(v@.subrange(0, v@.len() as int) =~= v@);
            None
        }
    }
}

impl WindowControlsStyle {
    /// The name the settings file and the UI use for this style.
    pub fn as_str(self) -> (r: &'static str)
        ensures
            r@ == controls_style_name(self),
    {
        match self {
            WindowControlsStyle::Auto => {
                proof {
                    reveal_strlit("auto");
                }
                "auto"
            },
            WindowControlsStyle::Breeze => {
                proof {
                    reveal_strlit("breeze");
                }
                "breeze"
            },
            WindowControlsStyle::Adwaita => {
                proof {
                    reveal_strlit("adwaita");
                }
                "adwaita"
            },
            WindowControlsStyle::Windows => {
                proof {
                    reveal_strlit("windows");
                }
                "windows"
            },
            WindowControlsStyle::Macos => {
                proof {
                    reveal_strlit("macos");
                }
                "macos"
            },
            WindowControlsStyle::Minimal => {
                proof {
                    reveal_strlit("minimal");
                }
                "minimal"
            },
        }
    }

    /// The style with this name, if any.
    pub fn from_name(value: &str) -> (r: Option<Self>)
        ensures
            match r {
                Some(m) => controls_style_name(m) == value@,
                None => forall|m: WindowControlsStyle| controls_style_name(m) != value@,
            },
    {
        let v = chars_of(value);
        assert(v@.subrange(0, v@.len() as int) =~= v@);
        let all = [
            WindowControlsStyle::Auto,
            WindowControlsStyle::Breeze,
            WindowControlsStyle::Adwaita,
            WindowControlsStyle::Windows,
            WindowControlsStyle::Macos,
            WindowControlsStyle::Minimal,
        ];
        let mut i: usize = 0;
        while i < 6
            invariant
                v@ == value@,
                all@ == seq![
                    WindowControlsStyle::Auto,
                    WindowControlsStyle::Breeze,
                    WindowControlsStyle::Adwaita,
                    WindowControlsStyle::Windows,
                    WindowControlsStyle::Macos,
                    WindowControlsStyle::Minimal,
                ],
                i <= 6,
                forall|j: int| 0 <= j < i ==> controls_style_name(all@[j]) != value@,
            decreases 6 - i,
        {
            let name = chars_of(all[i].as_str());
            assert(v@.subrange(0, v@.len() as int) =~= v@);
            if range_eq(v.as_slice(), 0, v.len(), name.as_slice()) {
                return Some(all[i]);
            }
            i = i + 1;
        }
        assert forall|m: WindowControlsStyle| controls_style_name(m) != value@ by {
            match m {
                WindowControlsStyle::Auto => assert(all@[0] == m),
                WindowControlsStyle::Breeze => assert(all@[1] == m),
                WindowControlsStyle::Adwaita => assert(all@[2] == m),
                WindowControlsStyle::Windows => assert(all@[3] == m),
                WindowControlsStyle::Macos => assert(all@[4] == m),
                WindowControlsStyle::Minimal => assert(all@[5] == m),
            }
        }
        None
    }
}


/// The settings file's format; a file of any other version is refused.
pub const SETTINGS_VERSION: u32 = 3;

/// Corner radius when a file does not set one.
pub fn default_window_corner_radius() -> (r: u8)
    ensures
        r == 10,
{
    10
}

/// Window control style when a file does not set one.
pub fn default_window_controls_style() -> (r: WindowControlsStyle)
    ensures
        r == WindowControlsStyle::Auto,
{
    WindowControlsStyle::Auto
}

/// Search preferences that a file does not set are on.
pub fn default_true() -> (r: bool)
    ensures
        r,
{
    true
}

/// When semantic search runs while typing.
#[derive(Debug, Clone, Copy, PartialEq, Eq, Structural)]
pub enum AiSearchTrigger {
    AsYouType,
    EnterOnly,
}

impl Default for AiSearchTrigger {
    fn default() -> (r: Self)
        ensures
            r == AiSearchTrigger::AsYouType,
    {
        AiSearchTrigger::AsYouType
    }
}

/// What the app shows when it starts.
#[derive(Debug, Clone, Copy, PartialEq, Eq, Structural)]
pub enum StartupView {
    Dashboard,
    LastSession,
    Today,
    SpecificPage,
}

impl Default for StartupView {
    fn default() -> (r: Self)
        ensures
            r == StartupView::Dashboard,
    {
        StartupView::Dashboard
    }
}

/// The secrets a settings file can hold.
#[derive(Debug, Clone, Copy, PartialEq, Eq, PartialOrd, Ord, Structural)]
pub enum SecretKey {
    SyncToken,
}

/// What this build of the app can change about its window.
#[derive(Debug, Clone, Copy, PartialEq, Eq, Structural)]
pub struct SettingsCapabilities {
    pub window_decorations: bool,
    pub window_corner_rounding: bool,
}

impl SettingsCapabilities {
    /// Desktop builds can switch decorations; Linux and Windows can round the window corners.
    pub fn current(mobile: bool, platform: Platform) -> (r: Self)
        ensures
            r.window_decorations == !mobile,
            r.window_corner_rounding == (platform == Platform::Linux || platform
                == Platform::Windows),
    {
        SettingsCapabilities {
            window_decorations: !mobile,
            window_corner_rounding: match platform {
                Platform::Linux | Platform::Windows => true,
                _ => false,
            },
        }
    }
}

/// A sync server address, as the parts of a parsed URL that the settings rules read.
#[derive(Debug, Clone)]
pub struct ServerUrl {
    /// The URL as written back to the settings file.
    pub serialized: String,
    pub scheme: String,
    pub host: Option<String>,
    pub username: String,
    pub password: Option<String>,
    pub query: Option<String>,
    pub fragment: Option<String>,
}

/// Why settings were refused.
#[derive(Debug, Clone, Copy, PartialEq, Eq, Structural)]
pub enum SettingsError {
    /// The corner radius is above 24 px.
    CornerRadiusOutOfRange,
    /// The file's format version is not [`SETTINGS_VERSION`].
    UnsupportedVersion(u32),
    /// The server URL's scheme is neither `http` nor `https`.
    NotHttp,
    /// The server URL has no host.
    MissingHost,
    /// The server URL carries a user name or a password.
    UrlCredentials,
    /// The server URL carries a query or a fragment.
    UrlQueryOrFragment,
    /// A sync server is configured without a non-blank sync token.
    SyncTokenRequired,
    /// The startup view is a specific page but no page is chosen.
    StartupPageRequired,
}

/// The first rule a server URL breaks, if any: HTTP(S), with a host, without
/// credentials, without query or fragment.
pub open spec fn url_problem(u: ServerUrl) -> Option<SettingsError> {
    if !(u.scheme@ == "http"@ || u.scheme@ == "https"@) {
        Some(SettingsError::NotHttp)
    } else if u.host is None {
        Some(SettingsError::MissingHost)
    } else if u.username@.len() != 0 || u.password is Some {
        Some(SettingsError::UrlCredentials)
    } else if u.query is Some || u.fragment is Some {
        Some(SettingsError::UrlQueryOrFragment)
    } else {
        None
    }
}

pub open spec fn as_result(p: Option<SettingsError>) -> Result<(), SettingsError> {
    match p {
        Some(e) => Err(e),
        None => Ok(()),
    }
}

/// Checks that a sync server URL is a plain HTTP(S) address.
pub fn validate_http_url(value: &ServerUrl) -> (r: Result<(), SettingsError>)
    ensures
        r == as_result(url_problem(*value)),
{
    let scheme = chars_of(value.scheme.as_str());
    let http = chars_of("http");
    let https = chars_of("https");
    let n = scheme.len();
    assert(scheme@.subrange(0, n as int) =~= scheme@);
    if !(range_eq(scheme.as_slice(), 0, n, http.as_slice()) || range_eq(
        scheme.as_slice(),
        0,
        n,
        https.as_slice(),
    )) {
        return Err(SettingsError::NotHttp);
    }
    if value.host.is_none() {
        return Err(SettingsError::MissingHost);
    }
    if value.username.as_str().is_empty() == false || value.password.is_some() {
        return Err(SettingsError::UrlCredentials);
    }
    if value.query.is_some() || value.fragment.is_some() {
        return Err(SettingsError::UrlQueryOrFragment);
    }
    Ok(())
}

/// A specific-page startup view needs its page.
pub open spec fn startup_problem(view: StartupView, page_uuid: Option<u128>) -> Option<
    SettingsError,
> {
    if view == StartupView::SpecificPage && page_uuid is None {
        Some(SettingsError::StartupPageRequired)
    } else {
        None
    }
}

pub fn validate_startup(view: StartupView, page_uuid: Option<u128>) -> (r: Result<
    (),
    SettingsError,
>)
    ensures
        r == as_result(startup_problem(view, page_uuid)),
{
    if view == StartupView::SpecificPage && page_uuid.is_none() {
        return Err(SettingsError::StartupPageRequired);
    }
    Ok(())
}


impl ServerUrl {
    /// A copy of this address.
    pub fn clone_url(&self) -> (r: ServerUrl)
        ensures
            r == *self,
    {
        ServerUrl {
            serialized: self.serialized.clone(),
            scheme: self.scheme.clone(),
            host: clone_text(&self.host),
            username: self.username.clone(),
            password: clone_text(&self.password),
            query: clone_text(&self.query),
            fragment: clone_text(&self.fragment),
        }
    }
}

fn clone_text(t: &Option<String>) -> (r: Option<String>)
    ensures
        r == *t,
{
    match t {
        Some(s) => Some(s.clone()),
        None => None,
    }
}

/// The settings file of one device: window preferences, search preferences and how the
/// device reaches its sync server. `sync_token` is the file's secret map, whose only key
/// is [`SecretKey::SyncToken`].
#[derive(Debug, Clone)]
pub struct StoredSettings {
    pub window_corner_radius: u8,
    pub version: u32,
    pub window_decoration_mode: WindowDecorationMode,
    pub window_controls_style: WindowControlsStyle,
    pub startup_view: StartupView,
    pub startup_page_uuid: Option<u128>,
    pub sync_server_url: Option<ServerUrl>,
    pub ai_search_enabled: bool,
    pub ai_search_trigger: AiSearchTrigger,
    pub ai_search_rerank: bool,
    pub search_debug_sources: bool,
    pub sync_token: Option<String>,
}

/// A non-blank sync token is stored.
pub open spec fn has_token(token: Option<String>) -> bool {
    match token {
        Some(t) => !is_blank(t@),
        None => false,
    }
}

/// The first rule stored settings break, if any.
pub open spec fn stored_problem(s: StoredSettings) -> Option<SettingsError> {
    if s.window_corner_radius > 24 {
        Some(SettingsError::CornerRadiusOutOfRange)
    } else if s.version != SETTINGS_VERSION {
        Some(SettingsError::UnsupportedVersion(s.version))
    } else if s.sync_server_url is Some && url_problem(s.sync_server_url->0) is Some {
        url_problem(s.sync_server_url->0)
    } else if s.sync_server_url is Some && !has_token(s.sync_token) {
        Some(SettingsError::SyncTokenRequired)
    } else {
        startup_problem(s.startup_view, s.startup_page_uuid)
    }
}

pub open spec fn is_default_settings(s: StoredSettings) -> bool {
    &&& s.window_corner_radius == 10
    &&& s.version == SETTINGS_VERSION
    &&& s.window_decoration_mode == WindowDecorationMode::Native
    &&& s.window_controls_style == WindowControlsStyle::Auto
    &&& s.startup_view == StartupView::Dashboard
    &&& s.startup_page_uuid is None
    &&& s.sync_server_url is None
    &&& s.ai_search_enabled
    &&& s.ai_search_trigger == AiSearchTrigger::AsYouType
    &&& s.ai_search_rerank
    &&& !s.search_debug_sources
    &&& s.sync_token is None
}

impl Default for StoredSettings {
    fn default() -> (r: Self)
        ensures
            is_default_settings(r),
    {
        StoredSettings {
            window_corner_radius: default_window_corner_radius(),
            version: SETTINGS_VERSION,
            window_decoration_mode: WindowDecorationMode::Native,
            window_controls_style: default_window_controls_style(),
            startup_view: StartupView::Dashboard,
            startup_page_uuid: None,
            sync_server_url: None,
            ai_search_enabled: true,
            ai_search_trigger: AiSearchTrigger::AsYouType,
            ai_search_rerank: true,
            search_debug_sources: false,
            sync_token: None,
        }
    }
}

fn has_sync_token(token: &Option<String>) -> (r: bool)
    ensures
        r == has_token(*token),
{
    match token {
        Some(t) => !blank(t.as_str()),
        None => false,
    }
}

/// Checks stored settings: corner radius, format version, sync server and token, startup page.
pub fn validate_stored(stored: &StoredSettings) -> (r: Result<(), SettingsError>)
    ensures
        r == as_result(stored_problem(*stored)),
{
    if stored.window_corner_radius > 24 {
        return Err(SettingsError::CornerRadiusOutOfRange);
    }
    if stored.version != SETTINGS_VERSION {
        return Err(SettingsError::UnsupportedVersion(stored.version));
    }
    if let Some(server_url) = &stored.sync_server_url {
        validate_http_url(server_url)?;
        if !has_sync_token(&stored.sync_token) {
            return Err(SettingsError::SyncTokenRequired);
        }
    }
    validate_startup(stored.startup_view, stored.startup_page_uuid)
}

/// Settings as the UI submits them. `api_keys` sets secrets (blank ones are ignored) after
/// `clear_keys` has removed the listed ones.
#[derive(Debug, Clone)]
pub struct SettingsUpdate {
    pub window_corner_radius: u8,
    pub window_decoration_mode: WindowDecorationMode,
    pub window_controls_style: WindowControlsStyle,
    pub startup_view: StartupView,
    pub startup_page_uuid: Option<u128>,
    pub sync_server_url: Option<ServerUrl>,
    pub ai_search_enabled: bool,
    pub ai_search_trigger: AiSearchTrigger,
    pub ai_search_rerank: bool,
    pub search_debug_sources: bool,
    pub api_keys: Vec<(SecretKey, String)>,
    pub clear_keys: Vec<SecretKey>,
}

/// The first rule an update breaks, if any: corner radius, server URL, startup page.
pub open spec fn update_problem(u: SettingsUpdate) -> Option<SettingsError> {
    if u.window_corner_radius > 24 {
        Some(SettingsError::CornerRadiusOutOfRange)
    } else if u.sync_server_url is Some && url_problem(u.sync_server_url->0) is Some {
        url_problem(u.sync_server_url->0)
    } else {
        startup_problem(u.startup_view, u.startup_page_uuid)
    }
}

pub fn validate_update(update: &SettingsUpdate) -> (r: Result<(), SettingsError>)
    ensures
        r == as_result(update_problem(*update)),
{
    if update.window_corner_radius > 24 {
        return Err(SettingsError::CornerRadiusOutOfRange);
    }
    if let Some(server_url) = &update.sync_server_url {
        validate_http_url(server_url)?;
    }
    validate_startup(update.startup_view, update.startup_page_uuid)
}

/// The token after `keys` are stored over `token` in order: each non-blank secret is
/// stored trimmed, so the last one wins.
pub open spec fn store_secrets(token: Option<Seq<char>>, keys: Seq<(SecretKey, String)>) -> Option<
    Seq<char>,
>
    decreases keys.len(),
{
    if keys.len() == 0 {
        token
    } else if !is_blank(keys.last().1@) {
        Some(trim(keys.last().1@))
    } else {
        store_secrets(token, keys.drop_last())
    }
}

pub open spec fn token_view(t: Option<String>) -> Option<Seq<char>> {
    match t {
        Some(s) => Some(s@),
        None => None,
    }
}

/// The token an update leaves: cleared if the update clears a key, then overwritten by
/// the update's non-blank secrets.
pub open spec fn updated_token(old: Option<String>, u: SettingsUpdate) -> Option<Seq<char>> {
    let kept = if u.clear_keys@.len() > 0 {
        None
    } else {
        token_view(old)
    };
    store_secrets(kept, u.api_keys@)
}

/// `stored` with everything an update sets taken from `u`.
pub open spec fn takes_update(new: StoredSettings, old: StoredSettings, u: SettingsUpdate) -> bool {
    &&& new.window_corner_radius == u.window_corner_radius
    &&& new.version == old.version
    &&& new.window_decoration_mode == u.window_decoration_mode
    &&& new.window_controls_style == u.window_controls_style
    &&& new.startup_view == u.startup_view
    &&& new.startup_page_uuid == u.startup_page_uuid
    &&& new.sync_server_url == u.sync_server_url
    &&& new.ai_search_enabled == u.ai_search_enabled
    &&& new.ai_search_trigger == u.ai_search_trigger
    &&& new.ai_search_rerank == u.ai_search_rerank
    &&& new.search_debug_sources == u.search_debug_sources
    &&& token_view(new.sync_token) == updated_token(old.sync_token, u)
}

/// The secret an update stores is its last non-blank one, trimmed; with no non-blank
/// secret, the token is kept unless the update clears a key.
pub proof fn lemma_update_token(old: Option<String>, u: SettingsUpdate)
    ensures
        (forall|i: int| 0 <= i < u.api_keys@.len() ==> is_blank(#[trigger] u.api_keys@[i].1@))
            ==> updated_token(old, u) == (if u.clear_keys@.len() > 0 {
            None
        } else {
            token_view(old)
        }),
        forall|i: int|
            0 <= i < u.api_keys@.len() && !is_blank(#[trigger] u.api_keys@[i].1@) && (forall|j: int|
                i < j < u.api_keys@.len() ==> is_blank(#[trigger] u.api_keys@[j].1@)) ==> updated_token(
                old,
                u,
            ) == Some(trim(u.api_keys@[i].1@)),
{
    let kept = if u.clear_keys@.len() > 0 {
        None
    } else {
        token_view(old)
    };
    lemma_store_secrets(kept, u.api_keys@);
}

proof fn lemma_store_secrets(token: Option<Seq<char>>, keys: Seq<(SecretKey, String)>)
    ensures
        (forall|i: int| 0 <= i < keys.len() ==> is_blank(#[trigger] keys[i].1@)) ==> store_secrets(
            token,
            keys,
        ) == token,
        forall|i: int|
            0 <= i < keys.len() && !is_blank(#[trigger] keys[i].1@) && (forall|j: int|
                i < j < keys.len() ==> is_blank(#[trigger] keys[j].1@)) ==> store_secrets(token, keys)
                == Some(trim(keys[i].1@)),
    decreases keys.len(),
{
    if keys.len() > 0 {
        let init = keys.drop_last();
        lemma_store_secrets(token, init);
        if forall|i: int| 0 <= i < keys.len() ==> is_blank(#[trigger] keys[i].1@) {
            assert(is_blank(keys[keys.len() - 1].1@));
            assert forall|i: int| 0 <= i < init.len() implies is_blank(#[trigger] init[i].1@) by {
                assert(init[i] == keys[i]);
            }
        }
        assert forall|i: int|
            0 <= i < keys.len() && !is_blank(#[trigger] keys[i].1@) && (forall|j: int|
                i < j < keys.len() ==> is_blank(#[trigger] keys[j].1@)) implies store_secrets(token, keys)
            == Some(trim(keys[i].1@)) by {
            if i < keys.len() - 1 {
                assert(is_blank(keys[keys.len() - 1].1@));
                assert(init[i] == keys[i]);
                assert forall|j: int| i < j < init.len() implies is_blank(#[trigger] init[j].1@) by {
                    assert(init[j] == keys[j]);
                }
            }
        }
    }
}

/// The rules of stored settings, each by what it refuses: a corner radius above 24, then a
/// format version other than this build's.
pub proof fn lemma_settings_rules(s: StoredSettings, u: SettingsUpdate)
    ensures
        s.window_corner_radius > 24 ==> stored_problem(s) == Some(SettingsError::CornerRadiusOutOfRange),
        s.window_corner_radius <= 24 && s.version != SETTINGS_VERSION ==> stored_problem(s) == Some(
            SettingsError::UnsupportedVersion(s.version),
        ),
        u.window_corner_radius > 24 ==> update_problem(u) == Some(SettingsError::CornerRadiusOutOfRange),
        s.window_corner_radius <= 24 && s.version == SETTINGS_VERSION && s.sync_server_url is Some
            && url_problem(s.sync_server_url->0) is None && s.sync_token is None ==> stored_problem(s)
            == Some(SettingsError::SyncTokenRequired),
{
}

/// Saving an update takes over every value it carries and keeps the stored format version.
pub proof fn lemma_update_takes_values(new: StoredSettings, old: StoredSettings, u: SettingsUpdate)
    requires
        takes_update(new, old, u),
    ensures
        new.window_corner_radius == u.window_corner_radius,
        new.window_decoration_mode == u.window_decoration_mode,
        new.window_controls_style == u.window_controls_style,
        new.startup_view == u.startup_view,
        new.startup_page_uuid == u.startup_page_uuid,
        new.sync_server_url == u.sync_server_url,
        new.ai_search_enabled == u.ai_search_enabled,
        new.ai_search_trigger == u.ai_search_trigger,
        new.ai_search_rerank == u.ai_search_rerank,
        new.search_debug_sources == u.search_debug_sources,
        new.version == old.version,
{
}

/// What saving an update does to stored settings: the update is validated, its values and
/// secrets are taken over, and the result is validated as a whole before it is kept.
pub fn apply_update(stored: StoredSettings, update: SettingsUpdate) -> (r: Result<
    StoredSettings,
    SettingsError,
>)
    ensures
        update_problem(update) is Some ==> r == Err::<StoredSettings, SettingsError>(
            update_problem(update)->0,
        ),
        update_problem(update) is None ==> match r {
            Ok(new) => takes_update(new, stored, update) && stored_problem(new) is None,
            Err(e) => exists|new: StoredSettings|
                takes_update(new, stored, update) && stored_problem(new) == Some(e),
        },
        r is Ok ==> r->Ok_0.window_corner_radius == update.window_corner_radius,
        r is Ok ==> r->Ok_0.window_decoration_mode == update.window_decoration_mode,
        r is Ok ==> r->Ok_0.window_controls_style == update.window_controls_style,
        r is Ok ==> r->Ok_0.startup_view == update.startup_view,
        r is Ok ==> r->Ok_0.startup_page_uuid == update.startup_page_uuid,
        r is Ok ==> r->Ok_0.sync_server_url == update.sync_server_url,
        r is Ok ==> r->Ok_0.ai_search_enabled == update.ai_search_enabled,
        r is Ok ==> r->Ok_0.ai_search_trigger == update.ai_search_trigger,
        r is Ok ==> r->Ok_0.ai_search_rerank == update.ai_search_rerank,
        r is Ok ==> r->Ok_0.search_debug_sources == update.search_debug_sources,
        r is Ok ==> r->Ok_0.version == stored.version,
{
    validate_update(&update)?;
    let ghost old_stored = stored;
    let ghost u = update;
    let SettingsUpdate {
        window_corner_radius,
        window_decoration_mode,
        window_controls_style,
        startup_view,
        startup_page_uuid,
        sync_server_url,
        ai_search_enabled,
        ai_search_trigger,
        ai_search_rerank,
        search_debug_sources,
        api_keys,
        clear_keys,
    } = update;
    let mut token = stored.sync_token;
    if clear_keys.len() > 0 {
        token = None;
    }
    let ghost kept = token_view(token);
    let mut i: usize = 0;
    while i < api_keys.len()
        invariant
            i <= api_keys@.len(),
            token_view(token) == store_secrets(kept, api_keys@.take(i as int)),
        decreases api_keys@.len() - i,
    {
        assert(api_keys@.take(i + 1).drop_last() =~= api_keys@.take(i as int));
        assert(api_keys@.take(i + 1).last() == api_keys@[i as int]);
        let secret = api_keys[i].1.as_str();
        if !blank(secret) {
            token = Some(trim_str(secret).to_owned());
        }
        i = i + 1;
    }
    assert(api_keys@.take(api_keys@.len() as int) =~= api_keys@);
    let new = StoredSettings {
        window_corner_radius,
        version: stored.version,
        window_decoration_mode,
        window_controls_style,
        startup_view,
        startup_page_uuid,
        sync_server_url,
        ai_search_enabled,
        ai_search_trigger,
        ai_search_rerank,
        search_debug_sources,
        sync_token: token,
    };
    assert(takes_update(new, old_stored, u));
    match validate_stored(&new) {
        Ok(()) => Ok(new),
        Err(e) => Err(e),
    }
}

/// Whether a requested decoration mode can be applied to the live window now: never when
/// the platform needs a restart for it, and only when it differs from the active one.
pub fn should_apply_decorations(
    requires_restart: bool,
    active: WindowDecorationMode,
    requested: WindowDecorationMode,
) -> (r: bool)
    ensures
        r == (!requires_restart && active != requested),
{
    !requires_restart && active != requested
}

/// The settings as the UI shows them.
#[derive(Debug, Clone)]
pub struct SettingsSnapshot {
    pub capabilities: SettingsCapabilities,
    pub window_corner_radius: u8,
    pub window_decoration_mode: WindowDecorationMode,
    pub active_window_decoration_mode: WindowDecorationMode,
    pub window_decorations_require_restart: bool,
    pub window_controls_style: WindowControlsStyle,
    /// What `auto` resolves to on this desktop, and where it puts each button.
    pub system_window_controls: SystemWindowControls,
    pub startup_view: StartupView,
    pub startup_page_uuid: Option<u128>,
    pub sync_server_url: Option<ServerUrl>,
    pub ai_search_enabled: bool,
    pub ai_search_trigger: AiSearchTrigger,
    pub ai_search_rerank: bool,
    pub search_debug_sources: bool,
    pub configured_keys: Vec<SecretKey>,
    pub config_path: String,
}

/// The snapshot shows the stored values, marks a non-blank sync token as configured
/// without revealing it, and reports the stored decoration mode as the active one.
pub open spec fn shows(snap: SettingsSnapshot, s: StoredSettings) -> bool {
    &&& snap.window_corner_radius == s.window_corner_radius
    &&& snap.window_decoration_mode == s.window_decoration_mode
    &&& snap.active_window_decoration_mode == s.window_decoration_mode
    &&& !snap.window_decorations_require_restart
    &&& snap.window_controls_style == s.window_controls_style
    &&& snap.startup_view == s.startup_view
    &&& snap.startup_page_uuid == s.startup_page_uuid
    &&& snap.sync_server_url == s.sync_server_url
    &&& snap.ai_search_enabled == s.ai_search_enabled
    &&& snap.ai_search_trigger == s.ai_search_trigger
    &&& snap.ai_search_rerank == s.ai_search_rerank
    &&& snap.search_debug_sources == s.search_debug_sources
    &&& snap.configured_keys@ == (if has_token(s.sync_token) {
        seq![SecretKey::SyncToken]
    } else {
        Seq::empty()
    })
}

/// The UI's view of valid stored settings; invalid ones are refused.
pub fn snapshot(
    stored: StoredSettings,
    path: String,
    capabilities: SettingsCapabilities,
    system_window_controls: SystemWindowControls,
) -> (r: Result<SettingsSnapshot, SettingsError>)
    ensures
        match r {
            Ok(snap) => stored_problem(stored) is None && shows(snap, stored)
                && snap.capabilities == capabilities && snap.system_window_controls
                == system_window_controls && snap.config_path == path,
            Err(e) => stored_problem(stored) == Some(e),
        },
{
    validate_stored(&stored)?;
    let mut configured_keys: Vec<SecretKey> = Vec::new();
    if has_sync_token(&stored.sync_token) {
        configured_keys.push(SecretKey::SyncToken);
    }
    let ghost s = stored;
    let snap = SettingsSnapshot {
        capabilities,
        window_corner_radius: stored.window_corner_radius,
        window_decoration_mode: stored.window_decoration_mode,
        active_window_decoration_mode: stored.window_decoration_mode,
        window_decorations_require_restart: false,
        window_controls_style: stored.window_controls_style,
        system_window_controls,
        startup_view: stored.startup_view,
        startup_page_uuid: stored.startup_page_uuid,
        sync_server_url: stored.sync_server_url,
        ai_search_enabled: stored.ai_search_enabled,
        ai_search_trigger: stored.ai_search_trigger,
        ai_search_rerank: stored.ai_search_rerank,
        search_debug_sources: stored.search_debug_sources,
        configured_keys,
        config_path: path,
    };
    assert(snap.configured_keys@ =~= (if has_token(s.sync_token) {
        seq![SecretKey::SyncToken]
    } else {
        Seq::empty()
    }));
    Ok(snap)
}

impl SettingsSnapshot {
    /// The snapshot with the live window's decoration state, which can lag the stored mode
    /// where a change needs a restart.
    pub fn with_window_state(self, active: WindowDecorationMode, requires_restart: bool) -> (r:
        Self)
        ensures
            r == (SettingsSnapshot {
                active_window_decoration_mode: active,
                window_decorations_require_restart: requires_restart,
                ..self
            }),
    {
        SettingsSnapshot {
            active_window_decoration_mode: active,
            window_decorations_require_restart: requires_restart,
            ..self
        }
    }
}

/// The settings the running app works with.
#[derive(Debug, Clone)]
pub struct RuntimeSettings {
    pub stored: StoredSettings,
}

impl RuntimeSettings {
    /// The server and token to sync with: none when no server is configured, an error
    /// when a server is configured without a non-blank token.
    pub fn sync_credentials(&self) -> (r: Result<Option<(ServerUrl, String)>, SettingsError>)
        ensures
            match self.stored.sync_server_url {
                None => r == Ok::<Option<(ServerUrl, String)>, SettingsError>(None),
                Some(u) => if has_token(self.stored.sync_token) {
                    r == Ok::<Option<(ServerUrl, String)>, SettingsError>(
                        Some((u, self.stored.sync_token->0)),
                    )
                } else {
                    r == Err::<Option<(ServerUrl, String)>, SettingsError>(
                        SettingsError::SyncTokenRequired,
                    )
                },
            },
    {
        let server_url = match &self.stored.sync_server_url {
            Some(u) => u.clone_url(),
            None => return Ok(None),
        };
        match &self.stored.sync_token {
            Some(token) => {
                if blank(token.as_str()) {
                    Err(SettingsError::SyncTokenRequired)
                } else {
                    Ok(Some((server_url, token.clone())))
                }
            },
            None => Err(SettingsError::SyncTokenRequired),
        }
    }
}

/// The settings of a fresh installation are valid.
pub proof fn lemma_default_settings_valid(s: StoredSettings)
    requires
        is_default_settings(s),
    ensures
        stored_problem(s) is None,
{
}

/// Names read back as what they name: no two modes and no two styles share a name, so
/// `from_name(as_str())` is the mode or style itself.
pub proof fn lemma_setting_names_distinct(
    a: WindowDecorationMode,
    b: WindowDecorationMode,
    c: WindowControlsStyle,
    d: WindowControlsStyle,
)
    ensures
        decoration_mode_name(a) == decoration_mode_name(b) ==> a == b,
        controls_style_name(c) == controls_style_name(d) ==> c == d,
{
    if decoration_mode_name(a) == decoration_mode_name(b) && a != b {
        assert(decoration_mode_name(a).len() != decoration_mode_name(b).len());
    }
    if controls_style_name(c) == controls_style_name(d) && c != d {
        assert(controls_style_name(c)[0] != controls_style_name(d)[0] || controls_style_name(c)[1]
            != controls_style_name(d)[1] || controls_style_name(c).len() != controls_style_name(
            d,
        ).len());
    }
}

} // verus!
