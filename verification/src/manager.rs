//! The owner of the two locations that every addon operation works on: the
//! game's installation path and the path of the addon library.
use crate::addons::{mount_addon, mount_decision, AddonPresence, DeployMethod, MountAction};
use crate::error::AddonError;
use crate::paths::{
    decide_install_path, first_component_in, first_component_of, install_path_decision,
    is_same_path, path_starts_with, same_path, same_volume, starts_with_path, InstallPathChange,
    InstallPathError,
};
use crate::search_paths::option_view;
use vstd::prelude::*;

verus! {

/// Where the game is installed, if it was found, and where the addon library
/// is kept, if the user has chosen a place. Whoever holds the manager holds
/// both for the whole of an operation.
#[derive(Debug, Clone)]
pub struct AddonDeploymentManager {
    game_path: Option<String>,
    install_path: Option<String>,
}

/// What an `AddonDeploymentManager` holds.
pub struct AddonDeploymentManagerView {
    pub game_path: Option<Seq<char>>,
    pub install_path: Option<Seq<char>>,
}

impl View for AddonDeploymentManager {
    type V = AddonDeploymentManagerView;

    closed spec fn view(&self) -> AddonDeploymentManagerView {
        AddonDeploymentManagerView {
            game_path: option_view(self.game_path),
            install_path: option_view(self.install_path),
        }
    }
}

impl AddonDeploymentManagerView {
    /// Whether links are available: both paths are known, both have a first
    /// component, and the two first components are equal.
    pub open spec fn links_available(self) -> bool {
        &&& self.game_path matches Some(game)
        &&& self.install_path matches Some(library)
        &&& first_component_in(game) is Some
        &&& first_component_in(game) == first_component_in(library)
    }

    /// What is decided of a new library path.
    pub open spec fn install_path_change(self, install_path: Seq<char>, is_directory: bool) -> Result<
        InstallPathChange,
        InstallPathError,
    > {
        install_path_decision(
            self.install_path is Some,
            self.install_path matches Some(current) && is_same_path(current, install_path),
            self.game_path is Some,
            self.game_path matches Some(game) && starts_with_path(install_path, game),
            is_directory,
        )
    }
}

impl AddonDeploymentManager {
    /// A manager for a game at `game_path` and a library at `install_path`.
    pub fn new(game_path: Option<String>, install_path: Option<String>) -> (manager:
        AddonDeploymentManager)
        ensures
            manager@.game_path == option_view(game_path),
            manager@.install_path == option_view(install_path),
    {
        AddonDeploymentManager { game_path, install_path }
    }

    /// The game's installation path, if the game was found.
    pub fn get_game_path(&self) -> (path: &Option<String>)
        ensures
            option_view(*path) == self@.game_path,
    {
        &self.game_path
    }

    /// The path of the addon library, if one is set.
    pub fn get_install_path(&self) -> (path: &Option<String>)
        ensures
            option_view(*path) == self@.install_path,
    {
        &self.install_path
    }

    /// The game's installation path, for an operation that cannot go on
    /// without it.
    pub fn require_game_path(&self) -> (path: Result<&String, AddonError>)
        ensures
            match path {
                Ok(path) => self@.game_path == Some(path@),
                Err(e) => self@.game_path is None && e == AddonError::NoGamePath,
            },
    {
        match &self.game_path {
            Some(path) => Ok(path),
            None => Err(AddonError::NoGamePath),
        }
    }

    /// The path of the addon library, for an operation that cannot go on
    /// without it.
    pub fn require_install_path(&self) -> (path: Result<&String, AddonError>)
        ensures
            match path {
                Ok(path) => self@.install_path == Some(path@),
                Err(e) => self@.install_path is None && e == AddonError::NoInstallPath,
            },
    {
        match &self.install_path {
            Some(path) => Ok(path),
            None => Err(AddonError::NoInstallPath),
        }
    }

    /// Whether addons may be deployed as links: only where both paths are
    /// known, both have a first component, and the two first components are
    /// equal, which is to say that both start at the same volume.
    pub fn is_symlink_available(&self) -> (available: bool)
        ensures
            available == self@.links_available(),
    {
        match (&self.game_path, &self.install_path) {
            (Some(game), Some(library)) => {
                let game_volume = first_component_of(game.as_str());
                let library_volume = first_component_of(library.as_str());
                same_volume(&game_volume, &library_volume)
            },
            _ => false,
        }
    }

    /// Decides whether and how an addon is mounted. Whether links are
    /// available is looked at anew for every mount.
    pub fn mount_addon(&self, presence: AddonPresence, method: DeployMethod) -> (decision: Result<
        MountAction,
        AddonError,
    >)
        ensures
            decision == mount_decision(presence, method, self@.links_available()),
    {
        let link_available = self.is_symlink_available();
        mount_addon(presence, method, link_available)
    }

    /// Sets the path of the addon library. `is_directory` says whether the
    /// new path is an existing directory. Nothing changes where the new path
    /// names the current one. Otherwise the game's path must be known, the
    /// new path must not lie inside it, and it must be a directory; then it
    /// is taken over, and the addons of a library that was set before are to
    /// be copied into it.
    pub fn set_install_path(&mut self, install_path: String, is_directory: bool) -> (decision:
        Result<InstallPathChange, InstallPathError>)
        ensures
            decision == old(self)@.install_path_change(install_path@, is_directory),
            final(self)@.game_path == old(self)@.game_path,
            final(self)@.install_path == if decision matches Ok(InstallPathChange::Changed { .. }) {
                Some(install_path@)
            } else {
                old(self)@.install_path
            },
    {
        let same = match &self.install_path {
            Some(path) => same_path(path.as_str(), install_path.as_str()),
            None => false,
        };
        let inside = match &self.game_path {
            Some(game) => path_starts_with(install_path.as_str(), game.as_str()),
            None => false,
        };
        let decision = decide_install_path(
            self.install_path.is_some(),
            same,
            self.game_path.is_some(),
            inside,
            is_directory,
        );
        match decision {
            Ok(InstallPathChange::Changed { .. }) => {
                self.install_path = Some(install_path);
            },
            _ => {},
        }
        decision
    }
}

} // verus!
