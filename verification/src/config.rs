//! Where the app keeps its data: the bootstrap pointer to the user's chosen
//! folder, the folder offered by default, and the layout inside it.

use vstd::prelude::*;
use crate::text::owned;

verus! {

/// Folder created next to the executable when running the portable bundle.
pub const PORTABLE_DATA_DIR: &'static str = "data";

/// The database file inside the base folder.
pub const DB_FILE: &'static str = "localmind.db";

/// The bootstrap pointer file inside its folder.
pub const CONFIG_FILE: &'static str = "config.json";

/// How the app was installed: by an installer, or as a portable bundle that
/// must leave nothing behind on the host machine.
#[derive(Debug, Clone, Copy, PartialEq, Eq, Structural)]
pub enum InstallFlavor {
    Installed,
    Portable,
}

/// The small bootstrap record: where the user's data lives plus the UI
/// preferences.
#[derive(Debug)]
pub struct AppConfig {
    pub base_path: String,
    pub theme: String,
    pub language: String,
    pub onboarding_completed: bool,
    pub auto_update_check: bool,
    pub skipped_version: Option<String>,
}

/// The value a missing `auto_update_check` reads as: a config written by an
/// older build keeps checking for updates.
pub fn default_true() -> (b: bool)
    ensures
        b,
{
    true
}

impl Default for AppConfig {
    fn default() -> (c: AppConfig)
        ensures
            c.base_path@ == Seq::<char>::empty(),
            c.theme@ == Seq::<char>::empty(),
            c.language@ == Seq::<char>::empty(),
            !c.onboarding_completed,
            c.auto_update_check,
            c.skipped_version is None,
    {
        AppConfig {
            base_path: String::new(),
            theme: String::new(),
            language: String::new(),
            onboarding_completed: false,
            auto_update_check: true,
            skipped_version: None,
        }
    }
}

/// `base` with `name` adjoined, as `std::path::Path::join` gives it on the
/// platform the library is built for.
pub uninterp spec fn joined_path(base: Seq<char>, name: Seq<char>) -> Seq<char>;

/// `base` with `name` adjoined (`std::path::Path::join`, lossily converted).
#[verifier::external_body]
pub(crate) fn join_path(base: &str, name: &str) -> (p: String)
    ensures
        p@ == joined_path(base@, name@),
{
    std::path::Path::new(base).join(name).to_string_lossy().into_owned()
}

impl AppConfig {
    /// The base folder, as a path.
    pub fn base_path_buf(&self) -> (p: String)
        ensures
            p@ == self.base_path@,
    {
        owned(self.base_path.as_str())
    }
}

pub const NO_APP_DIR: &'static str = "não foi possível localizar a pasta do aplicativo";

/// Where the bootstrap pointer lives: next to the executable, in `data`, for a
/// portable bundle; the OS config folder for an installed build. A portable
/// bundle whose own folder is unknown is an error, never a silent fall back to
/// the OS folder.
pub fn resolve_bootstrap_dir(flavor: InstallFlavor, app_dir: Option<&str>, os_config_dir: &str) -> (r: Result<String, String>)
    ensures
        match flavor {
            InstallFlavor::Installed => r matches Ok(p) && p@ == os_config_dir@,
            InstallFlavor::Portable => match app_dir {
                Some(d) => r matches Ok(p) && p@ == joined_path(d@, PORTABLE_DATA_DIR@),
                None => r matches Err(e) && e@ == NO_APP_DIR@,
            },
        },
{
    match flavor {
        InstallFlavor::Portable => match app_dir {
            Some(dir) => Ok(join_path(dir, PORTABLE_DATA_DIR)),
            None => Err(owned(NO_APP_DIR)),
        },
        InstallFlavor::Installed => Ok(owned(os_config_dir)),
    }
}

/// The folder the wizard offers by default: the same rule, against the OS
/// data folder.
pub fn resolve_default_base_path(flavor: InstallFlavor, app_dir: Option<&str>, os_data_dir: &str) -> (r: Result<String, String>)
    ensures
        match flavor {
            InstallFlavor::Installed => r matches Ok(p) && p@ == os_data_dir@,
            InstallFlavor::Portable => match app_dir {
                Some(d) => r matches Ok(p) && p@ == joined_path(d@, PORTABLE_DATA_DIR@),
                None => r matches Err(e) && e@ == NO_APP_DIR@,
            },
        },
{
    resolve_bootstrap_dir(flavor, app_dir, os_data_dir)
}

/// The bootstrap pointer file inside its folder.
pub fn bootstrap_file(dir: &str) -> (p: String)
    ensures
        p@ == joined_path(dir@, CONFIG_FILE@),
{
    join_path(dir, CONFIG_FILE)
}

/// The database file inside the base folder.
pub fn db_path(base_path: &str) -> (p: String)
    ensures
        p@ == joined_path(base_path@, DB_FILE@),
{
    join_path(base_path, DB_FILE)
}

/// The folders created inside the base folder. `runtime` holds the downloaded
/// llama.cpp binary: it is user data, so it survives app updates.
pub open spec fn subdir_names() -> Seq<Seq<char>> {
    seq!["models"@, "documents"@, "vectors"@, "chats"@, "runtime"@]
}

/// The folders to create inside `base_path`, in order.
pub fn folder_layout(base_path: &str) -> (dirs: Vec<String>)
    ensures
        dirs@.len() == 5,
        forall|i: int| 0 <= i < 5 ==> #[trigger] dirs@[i]@ == joined_path(base_path@, subdir_names()[i]),
{
    let mut dirs: Vec<String> = Vec::new();
    dirs.push(join_path(base_path, "models"));
    dirs.push(join_path(base_path, "documents"));
    dirs.push(join_path(base_path, "vectors"));
    dirs.push(join_path(base_path, "chats"));
    dirs.push(join_path(base_path, "runtime"));
    dirs
}

/// A folder `name` inside the base folder (models, documents, runtime, ...).
pub fn base_subdir(base_path: &str, name: &str) -> (p: String)
    ensures
        p@ == joined_path(base_path@, name@),
{
    join_path(base_path, name)
}

/// At boot the database is opened only once onboarding chose its folder.
pub fn database_to_open(config: Option<&AppConfig>) -> (p: Option<String>)
    ensures
        match config {
            Some(c) => if c.onboarding_completed {
                p matches Some(x) && x@ == joined_path(c.base_path@, DB_FILE@)
            } else {
                p is None
            },
            None => p is None,
        },
{
    match config {
        Some(c) => {
            if c.onboarding_completed {
                Some(db_path(c.base_path.as_str()))
            } else {
                None
            }
        },
        None => None,
    }
}

} // verus!
