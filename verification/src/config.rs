//! The settings that the user can change, and where they are kept.
use crate::paths;
use crate::paths::{Os, join_path};
use crate::text::cat;
use vstd::prelude::*;

verus! {

/// The settings of the application.
#[derive(Debug)]
pub struct AppConfig {
    /// Whether DSH is updated by itself.
    pub auto_update_dsh: bool,
    /// Whether the application is updated by itself.
    pub auto_update_app: bool,
    /// The port that the service should have.
    pub port: u16,
    /// Where packages come from: `npmjs`, `npmmirror`, or anything else for both.
    pub registry_source: String,
}

impl Clone for AppConfig {
    fn clone(&self) -> (r: Self)
        ensures
            r == *self,
    {
        AppConfig {
            auto_update_dsh: self.auto_update_dsh,
            auto_update_app: self.auto_update_app,
            port: self.port,
            registry_source: self.registry_source.clone(),
        }
    }
}

impl Default for AppConfig {
    fn default() -> (r: Self)
        ensures
            r.is_default(),
    {
        AppConfig {
            auto_update_dsh: true,
            auto_update_app: true,
            port: 3080,
            registry_source: "auto".to_owned(),
        }
    }
}

impl AppConfig {
    /// What holds of the settings that nobody has changed.
    pub open spec fn is_default(self) -> bool {
        &&& self.auto_update_dsh
        &&& self.auto_update_app
        &&& self.port == 3080
        &&& self.registry_source@ == "auto"@
    }
}

/// How an attempt to put the settings on disk went.
pub enum Saved {
    /// The file holds them.
    Written,
    /// They could not be turned into text, for this reason.
    NotPrinted(String),
    /// The text could not be written, for this reason.
    NotWritten(String),
}

/// The settings in force, and the file that keeps them.
pub struct ConfigStore {
    path: String,
    inner: AppConfig,
}

impl ConfigStore {
    /// The file that keeps the settings.
    pub closed spec fn file(self) -> Seq<char> {
        self.path@
    }

    /// The settings in force.
    pub closed spec fn config(self) -> AppConfig {
        self.inner
    }

    /// The settings kept under a data directory. `stored` is what the file holds, where it is
    /// there and can be read as settings.
    pub fn new(os: Os, app_data: &str, stored: Option<AppConfig>) -> (r: Self)
        ensures
            r.file() == paths::joined_path(os, app_data@, "config.json"@),
            kept_as(stored, r.config()),
    {
        let path = join_path(os, app_data, "config.json");
        let inner = match stored {
            Some(c) => c,
            None => AppConfig::default(),
        };
        ConfigStore { path, inner }
    }

    /// The file that keeps the settings.
    pub fn path(&self) -> (r: String)
        ensures
            r@ == self.file(),
    {
        self.path.clone()
    }

    /// The settings in force.
    pub fn get(&self) -> (r: AppConfig)
        ensures
            r == self.config(),
    {
        self.inner.clone()
    }

    /// Puts other settings in force, once they are on disk. Where they could not be saved the
    /// former ones stay.
    pub fn set(&mut self, config: AppConfig, saved: Saved) -> (r: Result<(), String>)
        ensures
            final(self).file() == old(self).file(),
            final(self).config() == in_force(old(self).config(), config, saved),
            match saved {
                Saved::Written => r is Ok,
                Saved::NotPrinted(e) => r is Err && r->Err_0@ == e@,
                Saved::NotWritten(e) => r is Err && r->Err_0@ == "保存设置失败: "@ + e@,
            },
    {
        match saved {
            Saved::Written => {
                self.inner = config;
                Ok(())
            },
            Saved::NotPrinted(e) => Err(e),
            Saved::NotWritten(e) => Err(cat("保存设置失败: ", e.as_str())),
        }
    }
}

/// Whether settings are those of a store, by what its file holds.
pub open spec fn kept_as(stored: Option<AppConfig>, config: AppConfig) -> bool {
    match stored {
        Some(c) => config == c,
        None => config.is_default(),
    }
}

/// What the file holds after an attempt to put settings into it that held `stored` before.
pub open spec fn file_after(stored: Option<AppConfig>, config: AppConfig, saved: Saved) -> Option<
    AppConfig,
> {
    match saved {
        Saved::Written => Some(config),
        _ => stored,
    }
}

/// The settings in force after an attempt to put others in force.
pub open spec fn in_force(before: AppConfig, config: AppConfig, saved: Saved) -> AppConfig {
    match saved {
        Saved::Written => config,
        _ => before,
    }
}

/// Settings that were saved are in force, and so they are in a store that is made from the file
/// afterwards. Where they could not be saved, both have what they had.
pub proof fn saved_settings_are_read_back(
    stored: Option<AppConfig>,
    before: AppConfig,
    config: AppConfig,
    saved: Saved,
)
    requires
        kept_as(stored, before),
    ensures
        saved is Written ==> in_force(before, config, saved) == config,
        kept_as(file_after(stored, config, saved), in_force(before, config, saved)),
{
}

/// The port that the service should have: the one in the settings, or the usual one where that
/// is 0.
pub open spec fn wanted_port(config: AppConfig) -> u16 {
    if config.port > 0 {
        config.port
    } else {
        3080
    }
}

/// Settings are in force once they are written, and not before: a failure keeps the former ones, and
/// is told.
pub proof fn only_written_settings_are_in_force(
    store: &mut ConfigStore,
    config: AppConfig,
    saved: Saved,
    r: Result<(), String>,
)
    requires
        call_ensures(ConfigStore::set, (store, config, saved), r),
    ensures
        r is Ok <==> saved is Written,
        saved is Written ==> final(store).config() == config,
        !(saved is Written) ==> final(store).config() == old(store).config(),
        saved matches Saved::NotWritten(e) ==> r->Err_0@ == "保存设置失败: "@ + e@,
        saved matches Saved::NotPrinted(e) ==> r->Err_0@ == e@,
        final(store).file() == old(store).file(),
{
}

/// Settings that were stored are in force; without any, updates are looked for by themselves, the
/// port is the usual one, and the registry is left to the application.
pub proof fn stored_settings_are_taken(
    os: Os,
    app_data: &str,
    stored: Option<AppConfig>,
    r: ConfigStore,
)
    requires
        call_ensures(ConfigStore::new, (os, app_data, stored), r),
    ensures
        r.file() == paths::joined_path(os, app_data@, "config.json"@),
        stored matches Some(c) ==> r.config() == c,
        stored is None ==> r.config().auto_update_dsh && r.config().auto_update_app && r.config().port
            == 3080 && r.config().registry_source@ == "auto"@,
{
}

/// The port that is wanted is the one that is set, and the usual one where none is.
pub proof fn wanted_port_is_the_set_one(config: AppConfig)
    ensures
        config.port > 0 ==> wanted_port(config) == config.port,
        config.port == 0 ==> wanted_port(config) == 3080,
{
}

} // verus!
