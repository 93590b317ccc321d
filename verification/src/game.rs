//! The state that is kept of the game between operations: where it is
//! installed, how its load-path block is classified, and which addons stand
//! in its mount directory.
use crate::addons::{list_installed_addons, listed, names, FolderEntry};
use crate::error::GameError;
use crate::search_paths::{
    check_search_paths, closed, has_block, patched, state_of, write_search_paths, SearchPaths,
    SearchPathsState,
};
use crate::text::lines;
use vstd::prelude::*;

verus! {

/// The Steam application id of the game.
pub const GAME_ID: u32 = 1422450;

/// Where the configuration file stands, relative to the installation path.
pub const GAME_INFO_FILE: &'static str = "game/citadel/gameinfo.gi";

/// Where the mount directory stands, relative to the installation path.
pub const ADDONS_FOLDER: &'static str = "game/citadel/addons";

/// Where the mount directory stands in an installation that is laid out
/// without the `game` directory.
pub const FLAT_ADDONS_FOLDER: &'static str = "citadel/addons";

/// The game as found on this machine.
#[derive(Debug, Clone)]
pub struct CitadelGame {
    path: String,
    search_paths_state: SearchPathsState,
    addons: Option<Vec<String>>,
}

/// What a `CitadelGame` holds.
pub struct CitadelGameView {
    pub path: Seq<char>,
    pub search_paths_state: SearchPathsState,
    pub addons: Option<Seq<Seq<char>>>,
}

impl View for CitadelGame {
    type V = CitadelGameView;

    closed spec fn view(&self) -> CitadelGameView {
        CitadelGameView {
            path: self.path@,
            search_paths_state: self.search_paths_state,
            addons: match self.addons {
                Some(addons) => Some(names(addons@)),
                None => None,
            },
        }
    }
}

/// What `mod_search_paths` comes to for a game in state `state`: nothing is
/// written unless the block is the shipped one; then the file is rewritten
/// around the new block, or the rewriting fails and nothing is written.
pub open spec fn mod_outcome(state: SearchPathsState, content: Seq<char>, serialized: Seq<char>) -> Result<
    Option<Seq<char>>,
    GameError,
> {
    if state != SearchPathsState::Vanilla {
        Ok(None)
    } else if !has_block(lines(content)) {
        Err(GameError::Block(crate::error::BlockError::NotFound))
    } else if !closed(lines(content)) {
        Err(GameError::Block(crate::error::BlockError::NotClosed))
    } else {
        Ok(Some(patched(content, serialized)))
    }
}

/// What `reset_search_paths` comes to: the file is rewritten around the new
/// block whatever the state is, or the rewriting fails and nothing is
/// written.
pub open spec fn reset_outcome(content: Seq<char>, serialized: Seq<char>) -> Result<
    Seq<char>,
    GameError,
> {
    if !has_block(lines(content)) {
        Err(GameError::Block(crate::error::BlockError::NotFound))
    } else if !closed(lines(content)) {
        Err(GameError::Block(crate::error::BlockError::NotClosed))
    } else {
        Ok(patched(content, serialized))
    }
}

/// Adapting is idempotent: for a game whose block is adapted already, or is
/// of the user's own making, nothing is written, whatever the file holds.
pub proof fn law_mod_only_from_vanilla(
    state: SearchPathsState,
    content: Seq<char>,
    serialized: Seq<char>,
)
    requires
        state == SearchPathsState::Modded || state == SearchPathsState::Custom,
    ensures
        mod_outcome(state, content, serialized) == Ok::<Option<Seq<char>>, GameError>(None),
{
}

impl CitadelGame {
    /// The state of a game installed at `path`, given the load-path block of
    /// its configuration file and the entries of its mount directory (`None`
    /// where that directory does not exist).
    pub fn new(path: String, search_paths: &SearchPaths, addons: Option<&Vec<FolderEntry>>) -> (game:
        CitadelGame)
        ensures
            game@.path == path@,
            game@.search_paths_state == state_of(search_paths@),
            game@.addons == match addons {
                Some(entries) => Some(listed(entries@, false)),
                None => None,
            },
    {
        CitadelGame {
            path,
            search_paths_state: CitadelGame::check_search_paths(search_paths),
            addons: CitadelGame::read_addons_folder(addons),
        }
    }

    /// Classifies a parsed load-path block.
    pub fn check_search_paths(search_paths: &SearchPaths) -> (state: SearchPathsState)
        ensures
            state == state_of(search_paths@),
    {
        check_search_paths(search_paths)
    }

    /// The addons in the mount directory, given its entries: the names of the
    /// plain files with the package extension, in the order of the listing.
    /// `None` stands for a directory that does not exist.
    pub fn read_addons_folder(entries: Option<&Vec<FolderEntry>>) -> (addons: Option<Vec<String>>)
        ensures
            match (entries, addons) {
                (Some(entries), Some(addons)) => names(addons@) == listed(entries@, false),
                (None, None) => true,
                _ => false,
            },
    {
        match entries {
            Some(entries) => Some(list_installed_addons(entries)),
            None => None,
        }
    }

    /// Where the game is installed.
    pub fn path(&self) -> (path: &String)
        ensures
            path@ == self@.path,
    {
        &self.path
    }

    /// How the load-path block was classified when it was last looked at or
    /// written.
    pub fn search_paths_state(&self) -> (state: SearchPathsState)
        ensures
            state == self@.search_paths_state,
    {
        self.search_paths_state
    }

    /// The addons that stood in the mount directory when the state was set
    /// up, or `None` where the directory did not exist.
    pub fn addons(&self) -> (addons: &Option<Vec<String>>)
        ensures
            match *addons {
                Some(addons) => self@.addons == Some(names(addons@)),
                None => self@.addons is None,
            },
    {
        &self.addons
    }

    /// Whether the mount directory has to be created: only where none was
    /// seen when the state was set up, and none exists now.
    pub fn create_addons_folder(&self, exists: bool) -> (create: bool)
        ensures
            create == (self@.addons is None && !exists),
    {
        self.addons.is_none() && !exists
    }

    /// Adapts the load-path block for addon loading. `content` is the text of
    /// the configuration file and `serialized` the canonical adapted block
    /// (`SearchPaths::modded`) in the configuration grammar. Where the block
    /// is not the shipped one nothing happens: there is nothing to write and
    /// the state stays as it is. Otherwise the result holds the new text of
    /// the file and the state becomes `Modded`; where the file cannot be
    /// rewritten the state stays as it is.
    pub fn mod_search_paths(&mut self, content: &str, serialized: &str) -> (written: Result<
        Option<String>,
        GameError,
    >)
        ensures
            match mod_outcome(old(self)@.search_paths_state, content@, serialized@) {
                Ok(Some(text)) => written matches Ok(Some(t)) && t@ == text,
                Ok(None) => written matches Ok(None),
                Err(e) => written matches Err(f) && f == e,
            },
            final(self)@.path == old(self)@.path,
            final(self)@.addons == old(self)@.addons,
            final(self)@.search_paths_state == if written matches Ok(Some(_)) {
                SearchPathsState::Modded
            } else {
                old(self)@.search_paths_state
            },
    {
        if self.search_paths_state != SearchPathsState::Vanilla {
            return Ok(None);
        }
        match write_search_paths(content, serialized) {
            Ok(text) => {
                self.search_paths_state = SearchPathsState::Modded;
                Ok(Some(text))
            },
            Err(e) => Err(GameError::Block(e)),
        }
    }

    /// Puts the shipped load-path block back. `content` is the text of the
    /// configuration file and `serialized` the canonical shipped block
    /// (`SearchPaths::vanilla`) in the configuration grammar. The file is
    /// rewritten whatever the state is: the result holds its new text and
    /// the state becomes `Vanilla`. Where the file cannot be rewritten the
    /// state stays as it is.
    pub fn reset_search_paths(&mut self, content: &str, serialized: &str) -> (written: Result<
        String,
        GameError,
    >)
        ensures
            match reset_outcome(content@, serialized@) {
                Ok(text) => written matches Ok(t) && t@ == text,
                Err(e) => written matches Err(f) && f == e,
            },
            final(self)@.path == old(self)@.path,
            final(self)@.addons == old(self)@.addons,
            final(self)@.search_paths_state == if written is Ok {
                SearchPathsState::Vanilla
            } else {
                old(self)@.search_paths_state
            },
    {
        match write_search_paths(content, serialized) {
            Ok(text) => {
                self.search_paths_state = SearchPathsState::Vanilla;
                Ok(text)
            },
            Err(e) => Err(GameError::Block(e)),
        }
    }
}

/// The game's location and the classification of its load-path block.
#[derive(Debug, Clone)]
pub struct GameState {
    pub path: String,
    pub search_paths_state: SearchPathsState,
}

/// Sets up the state of the game from where it was found and from the
/// load-path block of its configuration file. There is a state only where
/// the game was found and its block could be read.
pub fn init(path: Option<String>, search_paths: Option<SearchPaths>) -> (state: Option<GameState>)
    ensures
        match (path, search_paths) {
            (Some(path), Some(block)) => state matches Some(s) && s.path@ == path@
                && s.search_paths_state == state_of(block@),
            _ => state is None,
        },
{
    match (path, search_paths) {
        (Some(path), Some(block)) => Some(
            GameState { path, search_paths_state: check_search_paths(&block) },
        ),
        _ => None,
    }
}

} // verus!
