//! Questions about file-system paths. How a path falls into components is
//! the platform's business, so it is asked of `std::path`; what follows from
//! the answers is decided here.
use crate::search_paths::option_view;
use std::path::Path;
use vstd::prelude::*;

verus! {

/// The file name that `Path::file_name` finds in a path: its last component
/// where that names a file or a directory. How a path falls into components
/// is the platform's rule, so the result is named and not spelt out.
pub uninterp spec fn file_name_in(path: Seq<char>) -> Option<Seq<char>>;

/// The first item of `Path::components` for a path: the drive or root that
/// it starts at, or its first directory.
pub uninterp spec fn first_component_in(path: Seq<char>) -> Option<Seq<char>>;

/// Whether `Path::starts_with` finds the components of `base` at the start of
/// the components of `path`.
pub uninterp spec fn starts_with_path(path: Seq<char>, base: Seq<char>) -> bool;

/// Whether two texts name the same `Path`, component by component.
pub uninterp spec fn is_same_path(a: Seq<char>, b: Seq<char>) -> bool;

/// `Path::file_name` of the standard library: the last component of `path`
/// where it names a file or directory, as text. The result depends on the
/// text alone and is `file_name_in` of it; nothing more is claimed.
#[verifier::external_body]
pub(crate) fn file_name_of(path: &str) -> (name: Option<String>)
    ensures
        option_view(name) == file_name_in(path@),
{
    match Path::new(path).file_name() {
        Some(name) => Some(name.to_string_lossy().into_owned()),
        None => None,
    }
}

/// `Path::components` of the standard library, asked for its first item, as
/// text. The result depends on the text alone and is `first_component_in` of
/// it; nothing more is claimed.
#[verifier::external_body]
pub(crate) fn first_component_of(path: &str) -> (first: Option<String>)
    ensures
        option_view(first) == first_component_in(path@),
{
    match Path::new(path).components().next() {
        Some(first) => Some(first.as_os_str().to_string_lossy().into_owned()),
        None => None,
    }
}

/// `Path::starts_with` of the standard library: whether the components of
/// `base` are the first components of `path`. The result is
/// `starts_with_path` of the two texts, and a path starts with itself.
#[verifier::external_body]
pub(crate) fn path_starts_with(path: &str, base: &str) -> (inside: bool)
    ensures
        inside == starts_with_path(path@, base@),
        path@ == base@ ==> inside,
{
    Path::new(path).starts_with(base)
}

/// Equality of `Path` in the standard library: whether two texts name the
/// same path, component by component. The result is `is_same_path` of the
/// two texts, and a path equals itself.
#[verifier::external_body]
pub(crate) fn same_path(a: &str, b: &str) -> (same: bool)
    ensures
        same == is_same_path(a@, b@),
        a@ == b@ ==> same,
{
    Path::new(a) == Path::new(b)
}

/// Whether two paths start at the same volume, given the first component of
/// each: both must have one, and the two must be equal.
pub fn same_volume(game: &Option<String>, library: &Option<String>) -> (same: bool)
    ensures
        same == (game matches Some(g) && library matches Some(l) && g@ == l@),
{
    match (game, library) {
        (Some(g), Some(l)) => *g == *l,
        _ => false,
    }
}

/// Why a new library path is refused.
#[derive(Debug, Clone, Copy, PartialEq, Eq, Structural)]
pub enum InstallPathError {
    /// The game's installation path is not known.
    NoGamePath,
    /// The new path lies inside the game's installation path.
    InsideGamePath,
    /// The new path is not an existing directory.
    NotFound,
}

impl InstallPathError {
    /// The text that `message` gives for this error.
    pub open spec fn label(self) -> Seq<char> {
        match self {
            InstallPathError::NoGamePath => "Game path not found"@,
            InstallPathError::InsideGamePath => "Addon storage path cannot be inside the game path."@,
            InstallPathError::NotFound => "Addon storage path does not exist."@,
        }
    }

    /// The message shown to the user.
    pub fn message(&self) -> (text: String)
        ensures
            text@ == self.label(),
    {
        match self {
            InstallPathError::NoGamePath => String::from_str("Game path not found"),
            InstallPathError::InsideGamePath => String::from_str(
                "Addon storage path cannot be inside the game path.",
            ),
            InstallPathError::NotFound => String::from_str("Addon storage path does not exist."),
        }
    }
}

/// What setting the library path comes to.
#[derive(Debug, Clone, Copy, PartialEq, Eq, Structural)]
pub enum InstallPathChange {
    /// The new path is the current one: nothing is done.
    Unchanged,
    /// The new path takes effect. Where `migrate` is set there was another
    /// library before, and its addons are copied over, file by file, a failed
    /// copy being skipped; the old files stay.
    Changed { migrate: bool },
}

/// What is decided of a new library path from the answers to five questions:
/// is a library path set, does the new path equal it, is the game's path
/// known, does the new path lie inside it, and is the new path an existing
/// directory.
pub open spec fn install_path_decision(
    has_current: bool,
    same: bool,
    game_known: bool,
    inside: bool,
    is_directory: bool,
) -> Result<InstallPathChange, InstallPathError> {
    if has_current && same {
        Ok(InstallPathChange::Unchanged)
    } else if !game_known {
        Err(InstallPathError::NoGamePath)
    } else if inside {
        Err(InstallPathError::InsideGamePath)
    } else if !is_directory {
        Err(InstallPathError::NotFound)
    } else {
        Ok(InstallPathChange::Changed { migrate: has_current })
    }
}

/// Decides on a new library path from the answers to the five questions.
pub fn decide_install_path(
    has_current: bool,
    same: bool,
    game_known: bool,
    inside: bool,
    is_directory: bool,
) -> (decision: Result<InstallPathChange, InstallPathError>)
    ensures
        decision == install_path_decision(has_current, same, game_known, inside, is_directory),
{
    if has_current && same {
        Ok(InstallPathChange::Unchanged)
    } else if !game_known {
        Err(InstallPathError::NoGamePath)
    } else if inside {
        Err(InstallPathError::InsideGamePath)
    } else if !is_directory {
        Err(InstallPathError::NotFound)
    } else {
        Ok(InstallPathChange::Changed { migrate: has_current })
    }
}

} // verus!
