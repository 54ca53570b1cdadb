//! Where the files of a user live.
use crate::error::FetchError;
use std::path::PathBuf;
use vstd::prelude::*;

verus! {

/// A path of the platform. Nothing is known of what one holds: paths are
/// made here and handed on.
#[verifier::external_type_specification]
#[verifier::external_body]
pub struct ExPathBuf(std::path::PathBuf);

/// The path that `Path::join` of std gives for `relative` adjoined to
/// `base`.
pub uninterp spec fn joined_path(base: PathBuf, relative: Seq<char>) -> PathBuf;

/// One of the three places that the requests look at.
#[derive(Clone, Copy, Debug, PartialEq, Eq, Structural)]
pub enum Location {
    /// The directory that holds the shortcut files.
    ShortcutsDir,
    /// The user's stylesheet.
    Stylesheet,
    /// The window manager's configuration file.
    WindowManagerConfig,
}

/// The three places, as paths.
#[derive(Debug, PartialEq, Eq)]
pub struct ConfigPaths {
    pub shortcuts_dir: PathBuf,
    pub stylesheet: PathBuf,
    pub window_manager_config: PathBuf,
}

/// The path of `location` relative to the home directory.
pub open spec fn relative_path_of(location: Location) -> Seq<char> {
    match location {
        Location::ShortcutsDir => ".config/shortcuts/keybinds"@,
        Location::Stylesheet => ".config/shortcuts/style.css"@,
        Location::WindowManagerConfig => ".config/hypr/hyprland.conf"@,
    }
}

/// The path of `location` relative to the home directory.
pub fn relative_path(location: Location) -> (r: &'static str)
    ensures
        r@ == relative_path_of(location),
{
    match location {
        Location::ShortcutsDir => ".config/shortcuts/keybinds",
        Location::Stylesheet => ".config/shortcuts/style.css",
        Location::WindowManagerConfig => ".config/hypr/hyprland.conf",
    }
}

/// The home directory of the current user, if one can be determined. Calls
/// `dirs::home_dir`, whose answer depends on the environment of the process
/// and on the system's user database: nothing is claimed of it.
#[verifier::external_body]
fn home_dir() -> Option<PathBuf> {
    dirs::home_dir()
}

/// `relative` adjoined to `base` by the platform's own rule. Calls
/// `Path::join` of std; the contract gives its result a name and claims no
/// more of it than that it depends on the two arguments alone.
#[verifier::external_body]
fn join(base: &PathBuf, relative: &str) -> (p: PathBuf)
    ensures
        p == joined_path(*base, relative@),
{
    base.join(relative)
}

impl ConfigPaths {
    /// The three places below the home directory `home`.
    pub open spec fn below(home: PathBuf) -> ConfigPaths {
        ConfigPaths {
            shortcuts_dir: joined_path(home, relative_path_of(Location::ShortcutsDir)),
            stylesheet: joined_path(home, relative_path_of(Location::Stylesheet)),
            window_manager_config: joined_path(
                home,
                relative_path_of(Location::WindowManagerConfig),
            ),
        }
    }

    /// The path of `location`.
    pub open spec fn of(self, location: Location) -> PathBuf {
        match location {
            Location::ShortcutsDir => self.shortcuts_dir,
            Location::Stylesheet => self.stylesheet,
            Location::WindowManagerConfig => self.window_manager_config,
        }
    }

    /// The three places below `home`; without a home directory there are
    /// none.
    pub fn locate(home: Option<PathBuf>) -> (r: Result<ConfigPaths, FetchError>)
        ensures
            r == match home {
                Some(h) => Ok::<ConfigPaths, FetchError>(Self::below(h)),
                None => Err(FetchError::NoHome),
            },
    {
        match home {
            Some(h) => Ok(
                ConfigPaths {
                    shortcuts_dir: join(&h, relative_path(Location::ShortcutsDir)),
                    stylesheet: join(&h, relative_path(Location::Stylesheet)),
                    window_manager_config: join(&h, relative_path(Location::WindowManagerConfig)),
                },
            ),
            None => Err(FetchError::NoHome),
        }
    }

    /// The three places below the home directory of the current user.
    /// Whether there is such a directory, and which, is for the system to
    /// say: the request fails with `NoHome` or the paths lie below some
    /// directory.
    pub fn discover() -> (r: Result<ConfigPaths, FetchError>)
        ensures
            match r {
                Ok(paths) => exists|home: PathBuf| paths == #[trigger] Self::below(home),
                Err(e) => e == FetchError::NoHome,
            },
    {
        Self::locate(home_dir())
    }

    /// The path of `location`.
    pub fn path(&self, location: Location) -> (p: &PathBuf)
        ensures
            *p == self.of(location),
    {
        match location {
            Location::ShortcutsDir => &self.shortcuts_dir,
            Location::Stylesheet => &self.stylesheet,
            Location::WindowManagerConfig => &self.window_manager_config,
        }
    }
}

} // verus!
