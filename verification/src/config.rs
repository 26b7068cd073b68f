//! API profile configuration: its schema rules and the manager that keeps the
//! applied configuration in step with the file on disk.
use vstd::prelude::*;
use vstd::string::*;
use crate::paths::{join_path, path_join};
use crate::text::{blank, is_blank, same_text};
use crate::web::{parse_url, url_parse};

verus! {

#[derive(Clone, Copy, PartialEq, Eq, Structural, Debug)]
pub enum Provider {
    Openai,
    Anthropic,
}

#[derive(Clone, Debug)]
pub struct ApiProfile {
    pub id: String,
    pub name: String,
    pub provider: Provider,
    pub base_url: String,
    pub api_key: String,
    pub default_model: String,
    pub enabled: bool,
    pub created_at: String,
    pub updated_at: String,
}

#[derive(Clone, Debug)]
pub struct ToolsConfig {
    pub brave_search_api_key: Option<String>,
}

#[derive(Clone, Debug)]
pub struct ApiProfilesConfig {
    pub profiles: Vec<ApiProfile>,
    pub tools: ToolsConfig,
}

/// The value of a profile.
pub ghost struct ProfileView {
    pub id: Seq<char>,
    pub name: Seq<char>,
    pub provider: Provider,
    pub base_url: Seq<char>,
    pub api_key: Seq<char>,
    pub default_model: Seq<char>,
    pub enabled: bool,
    pub created_at: Seq<char>,
    pub updated_at: Seq<char>,
}

/// The value of a configuration.
pub ghost struct ConfigView {
    pub profiles: Seq<ProfileView>,
    pub brave_search_api_key: Option<Seq<char>>,
}

impl View for ApiProfile {
    type V = ProfileView;

    open spec fn view(&self) -> ProfileView {
        ProfileView {
            id: self.id@,
            name: self.name@,
            provider: self.provider,
            base_url: self.base_url@,
            api_key: self.api_key@,
            default_model: self.default_model@,
            enabled: self.enabled,
            created_at: self.created_at@,
            updated_at: self.updated_at@,
        }
    }
}

pub open spec fn profiles_view(ps: Seq<ApiProfile>) -> Seq<ProfileView> {
    ps.map_values(|p: ApiProfile| p@)
}

impl View for ApiProfilesConfig {
    type V = ConfigView;

    open spec fn view(&self) -> ConfigView {
        ConfigView {
            profiles: profiles_view(self.profiles@),
            brave_search_api_key: match self.tools.brave_search_api_key {
                Some(k) => Some(k@),
                None => None,
            },
        }
    }
}

fn copy_text(s: &String) -> (r: String)
    ensures
        r@ == s@,
{
    s.clone()
}

impl ApiProfile {
    /// A copy with the same value.
    pub fn duplicate(&self) -> (r: ApiProfile)
        ensures
            r@ == self@,
    {
        ApiProfile {
            id: copy_text(&self.id),
            name: copy_text(&self.name),
            provider: self.provider,
            base_url: copy_text(&self.base_url),
            api_key: copy_text(&self.api_key),
            default_model: copy_text(&self.default_model),
            enabled: self.enabled,
            created_at: copy_text(&self.created_at),
            updated_at: copy_text(&self.updated_at),
        }
    }
}

impl ApiProfilesConfig {
    /// A copy with the same value.
    pub fn duplicate(&self) -> (r: ApiProfilesConfig)
        ensures
            r@ == self@,
    {
        let mut profiles: Vec<ApiProfile> = Vec::new();
        let mut i: usize = 0;
        while i < self.profiles.len()
            invariant
                i <= self.profiles.len(),
                profiles_view(profiles@) == profiles_view(self.profiles@).take(i as int),
            decreases self.profiles.len() - i,
        {
            let ghost before = profiles@;
            let p = self.profiles[i].duplicate();
            profiles.push(p);
            assert(profiles_view(profiles@) == profiles_view(before).push(self.profiles@[i as int]@));
            assert(profiles_view(self.profiles@).take(i + 1) == profiles_view(self.profiles@).take(
                i as int,
            ).push(self.profiles@[i as int]@));
            i = i + 1;
        }
        assert(profiles_view(self.profiles@).take(self.profiles.len() as int) == profiles_view(
            self.profiles@,
        ));
        let key = match &self.tools.brave_search_api_key {
            Some(k) => Some(copy_text(k)),
            None => None,
        };
        ApiProfilesConfig { profiles, tools: ToolsConfig { brave_search_api_key: key } }
    }
}

/// Why a configuration could not be loaded, saved or applied.
#[derive(Debug)]
pub enum ConfigError {
    NotFound(String),
    InvalidJson(String),
    SchemaInvalid(String),
    ReloadRejected(String),
    Io(String),
}

/// The value of a [`ConfigError`].
pub ghost enum ConfigFault {
    NotFound(Seq<char>),
    InvalidJson(Seq<char>),
    SchemaInvalid(Seq<char>),
    ReloadRejected(Seq<char>),
    Io(Seq<char>),
}

impl View for ConfigError {
    type V = ConfigFault;

    open spec fn view(&self) -> ConfigFault {
        match self {
            ConfigError::NotFound(m) => ConfigFault::NotFound(m@),
            ConfigError::InvalidJson(m) => ConfigFault::InvalidJson(m@),
            ConfigError::SchemaInvalid(m) => ConfigFault::SchemaInvalid(m@),
            ConfigError::ReloadRejected(m) => ConfigFault::ReloadRejected(m@),
            ConfigError::Io(m) => ConfigFault::Io(m@),
        }
    }
}

/// The code that starts the text of an error.
pub open spec fn config_fault_code(e: ConfigFault) -> Seq<char> {
    match e {
        ConfigFault::NotFound(_) => "CONFIG_NOT_FOUND"@,
        ConfigFault::InvalidJson(_) => "CONFIG_INVALID_JSON"@,
        ConfigFault::SchemaInvalid(_) => "CONFIG_SCHEMA_INVALID"@,
        ConfigFault::ReloadRejected(_) => "CONFIG_RELOAD_REJECTED"@,
        ConfigFault::Io(_) => "IO_ERROR"@,
    }
}

pub open spec fn config_fault_detail(e: ConfigFault) -> Seq<char> {
    match e {
        ConfigFault::NotFound(m) => m,
        ConfigFault::InvalidJson(m) => m,
        ConfigFault::SchemaInvalid(m) => m,
        ConfigFault::ReloadRejected(m) => m,
        ConfigFault::Io(m) => m,
    }
}

/// The text of an error: its code, a colon, a space, and the detail.
pub open spec fn config_fault_text(e: ConfigFault) -> Seq<char> {
    config_fault_code(e) + ": "@ + config_fault_detail(e)
}

impl ConfigError {
    /// The code that the text of the error starts with.
    pub fn code(&self) -> (r: &'static str)
        ensures
            r@ == config_fault_code(self@),
    {
        match self {
            ConfigError::NotFound(_) => "CONFIG_NOT_FOUND",
            ConfigError::InvalidJson(_) => "CONFIG_INVALID_JSON",
            ConfigError::SchemaInvalid(_) => "CONFIG_SCHEMA_INVALID",
            ConfigError::ReloadRejected(_) => "CONFIG_RELOAD_REJECTED",
            ConfigError::Io(_) => "IO_ERROR",
        }
    }

    /// The text of the error, as it is shown to the user.
    pub fn message(&self) -> (r: String)
        ensures
            r@ == config_fault_text(self@),
    {
        let mut r = String::from_str(self.code());
        r.append(": ");
        match self {
            ConfigError::NotFound(m) => r.append(m.as_str()),
            ConfigError::InvalidJson(m) => r.append(m.as_str()),
            ConfigError::SchemaInvalid(m) => r.append(m.as_str()),
            ConfigError::ReloadRejected(m) => r.append(m.as_str()),
            ConfigError::Io(m) => r.append(m.as_str()),
        }
        r
    }
}

/// The first rule a profile breaks, given the ids of the profiles before it.
pub open spec fn profile_issue(p: ProfileView, earlier: Seq<Seq<char>>) -> Option<Seq<char>> {
    if is_blank(p.id) {
        Some("profile.id is required"@)
    } else if earlier.contains(p.id) {
        Some("duplicate profile id: "@ + p.id)
    } else if is_blank(p.name) {
        Some("profile "@ + p.id + " name is required"@)
    } else if is_blank(p.base_url) {
        Some("profile "@ + p.id + " base_url is required"@)
    } else {
        match url_parse(p.base_url) {
            Err(e) => Some("invalid base_url for "@ + p.id + ": "@ + e),
            Ok((scheme, _)) => if scheme != "https"@ && scheme != "http"@ {
                Some("base_url must use http or https for "@ + p.id)
            } else if is_blank(p.api_key) {
                Some("profile "@ + p.id + " api_key is required"@)
            } else if is_blank(p.default_model) {
                Some("profile "@ + p.id + " default_model is required"@)
            } else if is_blank(p.created_at) || is_blank(p.updated_at) {
                Some("profile "@ + p.id + " created_at/updated_at is required"@)
            } else {
                None
            },
        }
    }
}

pub open spec fn profile_ids(ps: Seq<ProfileView>) -> Seq<Seq<char>> {
    ps.map_values(|p: ProfileView| p.id)
}

/// The first rule the profiles break, in order; `None` when they keep them all.
pub open spec fn config_issue(ps: Seq<ProfileView>) -> Option<Seq<char>>
    decreases ps.len(),
{
    if ps.len() == 0 {
        None
    } else {
        match config_issue(ps.drop_last()) {
            Some(m) => Some(m),
            None => profile_issue(ps.last(), profile_ids(ps.drop_last())),
        }
    }
}

fn text_message2(a: &str, b: &str) -> (r: String)
    ensures
        r@ == a@ + b@,
{
    let mut r = String::from_str(a);
    r.append(b);
    r
}

fn text_message3(a: &str, b: &str, c: &str) -> (r: String)
    ensures
        r@ == a@ + b@ + c@,
{
    let mut r = String::from_str(a);
    r.append(b);
    r.append(c);
    r
}

fn text_message4(a: &str, b: &str, c: &str, d: &str) -> (r: String)
    ensures
        r@ == a@ + b@ + c@ + d@,
{
    let mut r = String::from_str(a);
    r.append(b);
    r.append(c);
    r.append(d);
    r
}

fn id_seen(ps: &Vec<ApiProfile>, upto: usize, id: &String) -> (r: bool)
    requires
        upto <= ps.len(),
    ensures
        r == profile_ids(profiles_view(ps@).take(upto as int)).contains(id@),
{
    let ghost ids = profile_ids(profiles_view(ps@).take(upto as int));
    let mut j: usize = 0;
    while j < upto
        invariant
            j <= upto <= ps.len(),
            ids == profile_ids(profiles_view(ps@).take(upto as int)),
            forall|k: int| 0 <= k < j ==> ids[k] != id@,
        decreases upto - j,
    {
        assert(ids[j as int] == ps@[j as int].id@);
        if ps[j].id == *id {
            assert(ids.contains(id@));
            return true;
        }
        j = j + 1;
    }
    assert(!ids.contains(id@)) by {
        if ids.contains(id@) {
            let k = choose|k: int| 0 <= k < ids.len() && ids[k] == id@;
            assert(ids[k] != id@);
        }
    }
    false
}

fn check_profile(ps: &Vec<ApiProfile>, i: usize) -> (r: Option<String>)
    requires
        i < ps.len(),
    ensures
        opt_text(r) == profile_issue(ps@[i as int]@, profile_ids(profiles_view(ps@).take(i as int))),
{
    let p = &ps[i];
    if blank(p.id.as_str()) {
        return Some(String::from_str("profile.id is required"));
    }
    if id_seen(ps, i, &p.id) {
        return Some(text_message2("duplicate profile id: ", p.id.as_str()));
    }
    if blank(p.name.as_str()) {
        return Some(text_message3("profile ", p.id.as_str(), " name is required"));
    }
    if blank(p.base_url.as_str()) {
        return Some(text_message3("profile ", p.id.as_str(), " base_url is required"));
    }
    match parse_url(p.base_url.as_str()) {
        Err(e) => {
            return Some(text_message4("invalid base_url for ", p.id.as_str(), ": ", e.as_str()));
        },
        Ok(parts) => {
            if !same_text(parts.scheme.as_str(), "https") && !same_text(parts.scheme.as_str(), "http") {
                return Some(text_message2("base_url must use http or https for ", p.id.as_str()));
            }
        },
    }
    if blank(p.api_key.as_str()) {
        return Some(text_message3("profile ", p.id.as_str(), " api_key is required"));
    }
    if blank(p.default_model.as_str()) {
        return Some(text_message3("profile ", p.id.as_str(), " default_model is required"));
    }
    if blank(p.created_at.as_str()) || blank(p.updated_at.as_str()) {
        return Some(text_message3("profile ", p.id.as_str(), " created_at/updated_at is required"));
    }
    None
}

pub open spec fn opt_text(o: Option<String>) -> Option<Seq<char>> {
    match o {
        Some(s) => Some(s@),
        None => None,
    }
}

/// Checks the schema rules of a configuration: every profile needs an id that no
/// earlier profile has, a name, a base URL that parses with scheme `http` or
/// `https`, an API key, a default model and both timestamps. The first broken rule
/// is reported.
pub fn validate_config(cfg: &ApiProfilesConfig) -> (r: Result<(), ConfigError>)
    ensures
        match config_issue(cfg@.profiles) {
            None => r is Ok,
            Some(m) => r matches Err(e) && e@ == ConfigFault::SchemaInvalid(m),
        },
{
    let ghost all = profiles_view(cfg.profiles@);
    let mut i: usize = 0;
    assert(all.take(0) == Seq::<ProfileView>::empty());
    while i < cfg.profiles.len()
        invariant
            i <= cfg.profiles.len(),
            all == profiles_view(cfg.profiles@),
            config_issue(all.take(i as int)) is None,
        decreases cfg.profiles.len() - i,
    {
        let issue = check_profile(&cfg.profiles, i);
        proof {
            let t = all.take(i + 1);
            assert(t.drop_last() == all.take(i as int));
            assert(t.last() == cfg.profiles@[i as int]@);
            assert(profiles_view(cfg.profiles@).take(i as int) == all.take(i as int));
        }
        match issue {
            Some(m) => {
                proof {
                    lemma_issue_persists(all, i + 1);
                }
                return Err(ConfigError::SchemaInvalid(m));
            },
            None => {},
        }
        i = i + 1;
    }
    assert(all.take(cfg.profiles.len() as int) == all);
    Ok(())
}

proof fn lemma_issue_persists(ps: Seq<ProfileView>, k: int)
    requires
        0 <= k <= ps.len(),
        config_issue(ps.take(k)) is Some,
    ensures
        config_issue(ps) == config_issue(ps.take(k)),
    decreases ps.len() - k,
{
    if k < ps.len() {
        let t = ps.take(k + 1);
        assert(t.drop_last() == ps.take(k));
        lemma_issue_persists(ps, k + 1);
    } else {
        assert(ps.take(k) == ps);
    }
}

/// Where the configuration file lives under the runtime root.
pub open spec fn spec_config_path(runtime_root: Seq<char>) -> Seq<char> {
    path_join(path_join(runtime_root, "config"@), "api_profiles.json"@)
}

/// `<runtime_root>/config/api_profiles.json`.
pub fn config_path(runtime_root: &str) -> (r: String)
    ensures
        r@ == spec_config_path(runtime_root@),
{
    let dir = join_path(runtime_root, "config");
    join_path(dir.as_str(), "api_profiles.json")
}

/// What the configuration file holds, as the caller found it on disk.
pub enum DiskConfig {
    /// There is no file at the configured path.
    Missing,
    /// The file is there but could not be read: the I/O error's text.
    Unreadable(String),
    /// The file does not hold a configuration in JSON: the parser's error text.
    Malformed(String),
    /// The configuration in the file, with the fingerprint of its serialized form
    /// (or the serializer's error text).
    Parsed(ApiProfilesConfig, Result<u64, String>),
}

/// Keeps the applied configuration and notices when the file changes behind it.
pub struct ConfigManager {
    path: String,
    current: Option<ApiProfilesConfig>,
    loaded_hash: Option<u64>,
    pending_external_change: bool,
}

/// The state of a [`ConfigManager`].
pub ghost struct ManagerView {
    pub path: Seq<char>,
    pub current: Option<ConfigView>,
    pub loaded_hash: Option<u64>,
    pub pending: bool,
}

impl View for ConfigManager {
    type V = ManagerView;

    closed spec fn view(&self) -> ManagerView {
        ManagerView {
            path: self.path@,
            current: match self.current {
                Some(c) => Some(c@),
                None => None,
            },
            loaded_hash: self.loaded_hash,
            pending: self.pending_external_change,
        }
    }
}

/// The configuration a file holds once checked against the schema, with its
/// fingerprint; or why it cannot be used.
pub open spec fn read_config(path: Seq<char>, disk: DiskConfig) -> Result<(ConfigView, u64), ConfigFault> {
    match disk {
        DiskConfig::Missing => Err(ConfigFault::NotFound(path)),
        DiskConfig::Unreadable(m) => Err(ConfigFault::Io(m@)),
        DiskConfig::Malformed(m) => Err(ConfigFault::InvalidJson(m@)),
        DiskConfig::Parsed(cfg, fp) => match config_issue(cfg@.profiles) {
            Some(m) => Err(ConfigFault::SchemaInvalid(m)),
            None => match fp {
                Ok(h) => Ok((cfg@, h)),
                Err(m) => Err(ConfigFault::InvalidJson(m@)),
            },
        },
    }
}

/// Loading: what comes back and the state after it.
pub open spec fn after_load(s: ManagerView, disk: DiskConfig) -> (Result<ConfigView, ConfigFault>, ManagerView) {
    match read_config(s.path, disk) {
        Err(e) => (Err(e), s),
        Ok((c, h)) => (Ok(c), ManagerView { current: Some(c), loaded_hash: Some(h), pending: false, ..s }),
    }
}

/// Checking the file for a change made outside: what comes back and the state after it.
pub open spec fn after_check(s: ManagerView, disk: DiskConfig) -> (Result<bool, ConfigFault>, ManagerView) {
    if disk is Missing {
        (Ok(false), s)
    } else {
        match read_config(s.path, disk) {
            Err(e) => (Err(e), s),
            Ok((_, h)) => match s.loaded_hash {
                Some(l) => (Ok(l != h), ManagerView { pending: l != h, ..s }),
                None => (Ok(true), ManagerView { pending: true, ..s }),
            },
        }
    }
}

/// Applying a change made outside, confirmed or not.
pub open spec fn after_apply(s: ManagerView, confirm: bool, disk: DiskConfig) -> (
    Result<ConfigView, ConfigFault>,
    ManagerView,
) {
    if !s.pending {
        match s.current {
            None => after_load(s, disk),
            Some(c) => (Ok(c), s),
        }
    } else if !confirm {
        (Err(ConfigFault::ReloadRejected("external config change detected but not confirmed"@)), s)
    } else {
        after_load(s, disk)
    }
}

/// Saving a configuration; `stored` is the outcome of writing it and taking its fingerprint.
pub open spec fn after_save(s: ManagerView, cfg: ConfigView, stored: Result<u64, ConfigFault>) -> (
    Result<(), ConfigFault>,
    ManagerView,
) {
    match config_issue(cfg.profiles) {
        Some(m) => (Err(ConfigFault::SchemaInvalid(m)), s),
        None => match stored {
            Err(e) => (Err(e), s),
            Ok(h) => (Ok(()), ManagerView { current: Some(cfg), loaded_hash: Some(h), pending: false, ..s }),
        },
    }
}

pub open spec fn ref_result_view(r: Result<&ApiProfilesConfig, ConfigError>) -> Result<ConfigView, ConfigFault> {
    match r {
        Ok(c) => Ok(c@),
        Err(e) => Err(e@),
    }
}

pub open spec fn unit_result_view(r: Result<(), ConfigError>) -> Result<(), ConfigFault> {
    match r {
        Ok(_) => Ok(()),
        Err(e) => Err(e@),
    }
}

pub open spec fn bool_result_view(r: Result<bool, ConfigError>) -> Result<bool, ConfigFault> {
    match r {
        Ok(b) => Ok(b),
        Err(e) => Err(e@),
    }
}

/// Reads the configuration out of what is on disk and checks it against the schema.
pub fn load_and_validate(path: &String, disk: DiskConfig) -> (r: Result<(ApiProfilesConfig, u64), ConfigError>)
    ensures
        match r {
            Ok((c, h)) => read_config(path@, disk) == Ok::<(ConfigView, u64), ConfigFault>((c@, h)),
            Err(e) => read_config(path@, disk) == Err::<(ConfigView, u64), ConfigFault>(e@),
        },
{
    match disk {
        DiskConfig::Missing => Err(ConfigError::NotFound(path.clone())),
        DiskConfig::Unreadable(m) => Err(ConfigError::Io(m)),
        DiskConfig::Malformed(m) => Err(ConfigError::InvalidJson(m)),
        DiskConfig::Parsed(cfg, fp) => {
            match validate_config(&cfg) {
                Err(e) => Err(e),
                Ok(()) => match fp {
                    Ok(h) => Ok((cfg, h)),
                    Err(m) => Err(ConfigError::InvalidJson(m)),
                },
            }
        },
    }
}

impl ConfigManager {
    /// A manager for the file at `path`, with nothing loaded yet.
    pub fn new(path: String) -> (r: ConfigManager)
        ensures
            r@ == (ManagerView { path: path@, current: None, loaded_hash: None, pending: false }),
    {
        ConfigManager { path, current: None, loaded_hash: None, pending_external_change: false }
    }

    /// The file this manager keeps in step with.
    pub fn path(&self) -> (r: &str)
        ensures
            r@ == self@.path,
    {
        self.path.as_str()
    }

    /// The configuration applied last, if any.
    pub fn current(&self) -> (r: Option<&ApiProfilesConfig>)
        ensures
            match r {
                Some(c) => self@.current == Some(c@),
                None => self@.current is None,
            },
    {
        match &self.current {
            Some(c) => Some(c),
            None => None,
        }
    }

    /// Loads the configuration from disk and applies it.
    pub fn load_or_reload(&mut self, disk: DiskConfig) -> (r: Result<&ApiProfilesConfig, ConfigError>)
        ensures
            (ref_result_view(r), final(self)@) == after_load(old(self)@, disk),
    {
        let loaded = load_and_validate(&self.path, disk);
        match loaded {
            Err(e) => Err(e),
            Ok((cfg, hash)) => {
                self.current = Some(cfg);
                self.loaded_hash = Some(hash);
                self.pending_external_change = false;
                match &self.current {
                    Some(c) => Ok(c),
                    None => Err(ConfigError::NotFound(self.path.clone())),
                }
            },
        }
    }

    /// Checks the configuration and, once it is written to disk (`stored` is the
    /// outcome of that write and of taking the fingerprint), applies it.
    pub fn save_and_apply(&mut self, cfg: ApiProfilesConfig, stored: Result<u64, ConfigError>) -> (r: Result<(), ConfigError>)
        ensures
            (unit_result_view(r), final(self)@) == after_save(
                old(self)@,
                cfg@,
                match stored {
                    Ok(h) => Ok(h),
                    Err(e) => Err(e@),
                },
            ),
    {
        match validate_config(&cfg) {
            Err(e) => return Err(e),
            Ok(()) => {},
        }
        match stored {
            Err(e) => Err(e),
            Ok(hash) => {
                self.current = Some(cfg);
                self.loaded_hash = Some(hash);
                self.pending_external_change = false;
                Ok(())
            },
        }
    }

    /// Whether the file now differs from the configuration loaded last.
    pub fn check_external_change(&mut self, disk: DiskConfig) -> (r: Result<bool, ConfigError>)
        ensures
            (bool_result_view(r), final(self)@) == after_check(old(self)@, disk),
    {
        if let DiskConfig::Missing = disk {
            return Ok(false);
        }
        let loaded = load_and_validate(&self.path, disk);
        match loaded {
            Err(e) => Err(e),
            Ok((_cfg, disk_hash)) => match self.loaded_hash {
                Some(loaded_hash) => {
                    self.pending_external_change = loaded_hash != disk_hash;
                    Ok(self.pending_external_change)
                },
                None => {
                    self.pending_external_change = true;
                    Ok(true)
                },
            },
        }
    }

    /// Applies a change made to the file outside, which must be confirmed.
    pub fn apply_external_change(&mut self, confirm: bool, disk: DiskConfig) -> (r: Result<&ApiProfilesConfig, ConfigError>)
        ensures
            (ref_result_view(r), final(self)@) == after_apply(old(self)@, confirm, disk),
    {
        if !self.pending_external_change {
            if self.current.is_none() {
                return self.load_or_reload(disk);
            }
            return match &self.current {
                Some(c) => Ok(c),
                None => Err(ConfigError::NotFound(self.path.clone())),
            };
        }
        if !confirm {
            return Err(ConfigError::ReloadRejected(String::from_str("external config change detected but not confirmed")));
        }
        self.load_or_reload(disk)
    }
}

/// A change made to the file outside that is not confirmed is refused, and the
/// manager is left as it was.
pub proof fn law_unconfirmed_change_is_refused(s: ManagerView, disk: DiskConfig)
    requires
        s.pending,
    ensures
        after_apply(s, false, disk) == (
            Err::<ConfigView, ConfigFault>(
                ConfigFault::ReloadRejected("external config change detected but not confirmed"@),
            ),
            s,
        ),
{
}

/// Once a configuration has been loaded, the same file read again is no change.
pub proof fn law_loaded_file_is_no_change(s: ManagerView, disk: DiskConfig)
    requires
        after_load(s, disk).0 is Ok,
    ensures
        after_check(after_load(s, disk).1, disk) == (Ok::<bool, ConfigFault>(false), after_load(s, disk).1),
{
}

/// Once a configuration has been saved, a file whose fingerprint is the one taken
/// at the save is no change, and the saved configuration stays applied.
pub proof fn law_saved_file_is_no_change(s: ManagerView, cfg: ConfigView, h: u64, disk: DiskConfig)
    requires
        after_save(s, cfg, Ok(h)).0 is Ok,
        read_config(s.path, disk) is Ok,
        read_config(s.path, disk)->Ok_0.1 == h,
    ensures
        after_save(s, cfg, Ok(h)).1.current == Some(cfg),
        after_check(after_save(s, cfg, Ok(h)).1, disk) == (
            Ok::<bool, ConfigFault>(false),
            after_save(s, cfg, Ok(h)).1,
        ),
{
}

/// Once a configuration has been saved, a file whose fingerprint differs is
/// reported as changed; applying it unconfirmed is refused and changes nothing,
/// and applying it confirmed puts the file's configuration in force.
pub proof fn law_external_change_needs_confirmation(s: ManagerView, cfg: ConfigView, h: u64, disk: DiskConfig)
    requires
        after_save(s, cfg, Ok(h)).0 is Ok,
        read_config(s.path, disk) is Ok,
        read_config(s.path, disk)->Ok_0.1 != h,
    ensures
        ({
            let saved = after_save(s, cfg, Ok(h)).1;
            let (changed, checked) = after_check(saved, disk);
            let on_disk = read_config(s.path, disk)->Ok_0;
            &&& changed == Ok::<bool, ConfigFault>(true)
            &&& checked.pending
            &&& after_apply(checked, false, disk).0 is Err
            &&& after_apply(checked, false, disk).1 == checked
            &&& after_apply(checked, true, disk) == (
                Ok::<ConfigView, ConfigFault>(on_disk.0),
                ManagerView {
                    current: Some(on_disk.0),
                    loaded_hash: Some(on_disk.1),
                    pending: false,
                    ..checked
                },
            )
        }),
{
}

/// A profile that keeps every field rule: a non-blank id, name, base URL, API
/// key and default model, both timestamps, and a base URL that parses with the
/// `http` or `https` scheme.
pub open spec fn profile_fields_ok(p: ProfileView) -> bool {
    &&& !is_blank(p.id)
    &&& !is_blank(p.name)
    &&& !is_blank(p.base_url)
    &&& url_parse(p.base_url) matches Ok((scheme, _)) && (scheme == "https"@ || scheme == "http"@)
    &&& !is_blank(p.api_key)
    &&& !is_blank(p.default_model)
    &&& !is_blank(p.created_at)
    &&& !is_blank(p.updated_at)
}

/// No two profiles share an id.
pub open spec fn ids_distinct(ps: Seq<ProfileView>) -> bool {
    forall|a: int, b: int| 0 <= a < b < ps.len() ==> ps[a].id != ps[b].id
}

proof fn lemma_profile_issue_none(p: ProfileView, earlier: Seq<Seq<char>>)
    ensures
        profile_issue(p, earlier) is None <==> profile_fields_ok(p) && !earlier.contains(p.id),
{
}

/// A configuration is accepted exactly when every profile keeps every field
/// rule and no two profiles share an id; in particular a profile with a blank
/// API key is never accepted.
pub proof fn law_accepted_configs(ps: Seq<ProfileView>)
    ensures
        config_issue(ps) is None <==> (forall|i: int| 0 <= i < ps.len() ==> profile_fields_ok(#[trigger] ps[i]))
            && ids_distinct(ps),
        (exists|i: int| 0 <= i < ps.len() && is_blank(#[trigger] ps[i].api_key)) ==> config_issue(ps) is Some,
    decreases ps.len(),
{
    if ps.len() > 0 {
        let pre = ps.drop_last();
        law_accepted_configs(pre);
        lemma_profile_issue_none(ps.last(), profile_ids(pre));
        assert forall|i: int| 0 <= i < pre.len() implies pre[i] == ps[i] by {}
        assert(profile_ids(pre).contains(ps.last().id) <==> exists|a: int| 0 <= a < pre.len() && pre[a].id
            == ps.last().id) by {
            if profile_ids(pre).contains(ps.last().id) {
                let a = choose|a: int| 0 <= a < profile_ids(pre).len() && profile_ids(pre)[a] == ps.last().id;
                assert(pre[a].id == ps.last().id);
            }
            if exists|a: int| 0 <= a < pre.len() && pre[a].id == ps.last().id {
                let a = choose|a: int| 0 <= a < pre.len() && pre[a].id == ps.last().id;
                assert(profile_ids(pre)[a] == ps.last().id);
            }
        }
        let all_ok = (forall|i: int| 0 <= i < ps.len() ==> profile_fields_ok(#[trigger] ps[i])) && ids_distinct(ps);
        if all_ok {
            assert forall|i: int| 0 <= i < pre.len() implies profile_fields_ok(#[trigger] pre[i]) by {
                assert(profile_fields_ok(ps[i]));
            }
            assert(profile_fields_ok(ps[ps.len() - 1]));
            if exists|a: int| 0 <= a < pre.len() && pre[a].id == ps.last().id {
                let a = choose|a: int| 0 <= a < pre.len() && pre[a].id == ps.last().id;
                assert(ps[a].id != ps[ps.len() - 1].id);
            }
        }
        if config_issue(ps) is None {
            assert forall|i: int| 0 <= i < ps.len() implies profile_fields_ok(#[trigger] ps[i]) by {
                if i < pre.len() {
                    assert(profile_fields_ok(pre[i]));
                }
            }
            assert forall|a: int, b: int| 0 <= a < b < ps.len() implies ps[a].id != ps[b].id by {
                if b < pre.len() {
                    assert(pre[a].id != pre[b].id);
                } else {
                    assert(pre[a] == ps[a]);
                }
            }
        }
        if exists|i: int| 0 <= i < ps.len() && is_blank(#[trigger] ps[i].api_key) {
            let i = choose|i: int| 0 <= i < ps.len() && is_blank(#[trigger] ps[i].api_key);
            assert(!profile_fields_ok(ps[i]));
        }
    }
}

} // verus!
