//! What can go wrong, one variant per kind, each with the cause it wraps.
use vstd::prelude::*;

verus! {

/// `std::io::Error`, carried through as the cause of a failed read or write.
#[verifier::external_type_specification]
#[verifier::external_body]
pub struct ExIoError(std::io::Error);

/// The error of `keyvalues_serde`, carried through as the cause of a block
/// that could not be parsed or written in the configuration grammar.
#[verifier::external_type_specification]
#[verifier::external_body]
pub struct ExGrammarError(keyvalues_serde::error::Error);

/// Why the load-path block could not be taken out of, or put into, the lines
/// of a configuration file.
#[derive(Debug, Clone, Copy, PartialEq, Eq, Structural)]
pub enum BlockError {
    /// No line holds the block's opening marker.
    NotFound,
    /// A marker line has no line with a closing brace behind it.
    NotClosed,
}

/// Failures around the load-path block of the configuration file.
#[derive(Debug)]
pub enum SearchPathsError {
    CouldNotReadGameInfo(std::io::Error),
    CouldNotWriteGameInfo(std::io::Error),
    DeserializationError(Box<keyvalues_serde::error::Error>),
    SerializationError(Box<keyvalues_serde::error::Error>),
    NoGamePath,
    Block(BlockError),
}

/// Failures of the addon operations.
#[derive(Debug)]
pub enum AddonError {
    NoInstallPath,
    NoGamePath,
    CouldNotCreateAddonFolder(std::io::Error),
    CouldNotReadInstallFolder(std::io::Error),
    CouldNotReadAddonFolder(std::io::Error),
    CouldNotWriteAddonFolder(std::io::Error),
    CouldNotWriteInstallFolder(std::io::Error),
    InvalidAddonFile,
    AddonIsNotInstalled,
    AddonAlreadyMounted,
    AddonIsNotMounted,
    CannotDeleteMountedAddon,
}

/// Failures while the game's state is set up or its configuration is adapted.
#[derive(Debug)]
pub enum GameError {
    CannotLocateSteam,
    CannotLocateDeadlock,
    Io(std::io::Error),
    Serde(Box<keyvalues_serde::error::Error>),
    Block(BlockError),
}

/// `label` followed by `cause`.
pub fn labelled(label: &str, cause: &str) -> (text: String)
    ensures
        text@ == label@ + cause@,
{
    let mut text = String::from_str(label);
    text.append(cause);
    text
}

impl BlockError {
    /// The text that `message` gives for this error.
    pub open spec fn label(self) -> Seq<char> {
        match self {
            BlockError::NotFound => "SearchPaths block not found in gameinfo.gi"@,
            BlockError::NotClosed => "SearchPaths block is not closed in gameinfo.gi"@,
        }
    }

    /// The message shown to the user.
    pub fn message(&self) -> (text: String)
        ensures
            text@ == self.label(),
    {
        match self {
            BlockError::NotFound => String::from_str("SearchPaths block not found in gameinfo.gi"),
            BlockError::NotClosed => String::from_str(
                "SearchPaths block is not closed in gameinfo.gi",
            ),
        }
    }
}

impl SearchPathsError {
    /// Whether the error wraps a lower-level cause, whose own text ends the
    /// message.
    pub open spec fn has_cause(self) -> bool {
        self is CouldNotReadGameInfo || self is CouldNotWriteGameInfo
            || self is DeserializationError || self is SerializationError
    }

    /// The fixed part of the message: all of it where there is no cause, what
    /// stands before the cause's text where there is one.
    pub open spec fn label(self) -> Seq<char> {
        match self {
            SearchPathsError::CouldNotReadGameInfo(_) => "Could not read gameinfo.gi: "@,
            SearchPathsError::CouldNotWriteGameInfo(_) => "Could not write gameinfo.gi: "@,
            SearchPathsError::DeserializationError(_) => "Deserialization error: "@,
            SearchPathsError::SerializationError(_) => "Serialization error: "@,
            SearchPathsError::NoGamePath => "Game path not found"@,
            SearchPathsError::Block(e) => e.label(),
        }
    }

    /// The message shown to the user. The text of a wrapped cause is the
    /// cause's own and is not described here.
    pub fn message(&self) -> (text: String)
        ensures
            !self.has_cause() ==> text@ == self.label(),
            self.has_cause() ==> self.label().is_prefix_of(text@),
    {
        match self {
            SearchPathsError::CouldNotReadGameInfo(e) => labelled(
                "Could not read gameinfo.gi: ",
                e.to_string().as_str(),
            ),
            SearchPathsError::CouldNotWriteGameInfo(e) => labelled(
                "Could not write gameinfo.gi: ",
                e.to_string().as_str(),
            ),
            SearchPathsError::DeserializationError(e) => labelled(
                "Deserialization error: ",
                e.to_string().as_str(),
            ),
            SearchPathsError::SerializationError(e) => labelled(
                "Serialization error: ",
                e.to_string().as_str(),
            ),
            SearchPathsError::NoGamePath => String::from_str("Game path not found"),
            SearchPathsError::Block(e) => e.message(),
        }
    }
}

impl AddonError {
    /// Whether the error wraps a lower-level cause, whose own text ends the
    /// message.
    pub open spec fn has_cause(self) -> bool {
        self is CouldNotCreateAddonFolder || self is CouldNotReadInstallFolder
            || self is CouldNotReadAddonFolder || self is CouldNotWriteAddonFolder
            || self is CouldNotWriteInstallFolder
    }

    /// The fixed part of the message: all of it where there is no cause, what
    /// stands before the cause's text where there is one.
    pub open spec fn label(self) -> Seq<char> {
        match self {
            AddonError::NoInstallPath => "Storage path not found"@,
            AddonError::NoGamePath => "Game path not found"@,
            AddonError::CouldNotCreateAddonFolder(_) => "Could not create addons folder: "@,
            AddonError::CouldNotReadInstallFolder(_) => "Could not read storage path: "@,
            AddonError::CouldNotReadAddonFolder(_) => "Could not read addons folder: "@,
            AddonError::CouldNotWriteAddonFolder(_) => "Could not write addons folder: "@,
            AddonError::CouldNotWriteInstallFolder(_) => "Could not write storage folder: "@,
            AddonError::InvalidAddonFile => "Invalid addon file"@,
            AddonError::AddonIsNotInstalled => "Addon is not stored"@,
            AddonError::AddonAlreadyMounted => "Addon is already installed"@,
            AddonError::AddonIsNotMounted => "Addon is not installed"@,
            AddonError::CannotDeleteMountedAddon => "Cannot delete installed addon"@,
        }
    }

    /// The message shown to the user. The text of a wrapped cause is the
    /// cause's own and is not described here.
    pub fn message(&self) -> (text: String)
        ensures
            !self.has_cause() ==> text@ == self.label(),
            self.has_cause() ==> self.label().is_prefix_of(text@),
    {
        match self {
            AddonError::NoInstallPath => String::from_str("Storage path not found"),
            AddonError::NoGamePath => String::from_str("Game path not found"),
            AddonError::CouldNotCreateAddonFolder(e) => labelled(
                "Could not create addons folder: ",
                e.to_string().as_str(),
            ),
            AddonError::CouldNotReadInstallFolder(e) => labelled(
                "Could not read storage path: ",
                e.to_string().as_str(),
            ),
            AddonError::CouldNotReadAddonFolder(e) => labelled(
                "Could not read addons folder: ",
                e.to_string().as_str(),
            ),
            AddonError::CouldNotWriteAddonFolder(e) => labelled(
                "Could not write addons folder: ",
                e.to_string().as_str(),
            ),
            AddonError::CouldNotWriteInstallFolder(e) => labelled(
                "Could not write storage folder: ",
                e.to_string().as_str(),
            ),
            AddonError::InvalidAddonFile => String::from_str("Invalid addon file"),
            AddonError::AddonIsNotInstalled => String::from_str("Addon is not stored"),
            AddonError::AddonAlreadyMounted => String::from_str("Addon is already installed"),
            AddonError::AddonIsNotMounted => String::from_str("Addon is not installed"),
            AddonError::CannotDeleteMountedAddon => String::from_str(
                "Cannot delete installed addon",
            ),
        }
    }
}

} // verus!
