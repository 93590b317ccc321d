//! Addon packages: which files count as addons, and what each operation of
//! the deployment life cycle decides from what is present in the library and
//! in the game's mount directory.
use crate::error::AddonError;
use crate::paths::{file_name_in, file_name_of};
use crate::search_paths::option_view;
use crate::text::{matches_at, to_chars, to_string};
use vstd::prelude::*;

verus! {

/// How a library addon is materialised in the mount directory.
#[derive(Debug, Clone, Copy, PartialEq, Eq, Structural)]
pub enum DeployMethod {
    Copy,
    Symlink,
}

impl Default for DeployMethod {
    /// Addons are copied unless the settings say otherwise.
    fn default() -> (method: DeployMethod)
        ensures
            method == DeployMethod::Copy,
    {
        DeployMethod::Copy
    }
}

/// What the caller gives to install an addon: the file to take, and
/// optionally the name to store it under and the name to show for it.
#[derive(Debug, Clone)]
pub struct InstallAddonInfo {
    pub file_path: String,
    pub file_name: Option<String>,
    pub display_name: Option<String>,
}

/// What kind of directory entry the platform reports.
#[derive(Debug, Clone, Copy, PartialEq, Eq, Structural)]
pub enum EntryKind {
    File,
    Directory,
    SymlinkFile,
    Other,
}

/// One entry of a directory listing.
#[derive(Debug, Clone)]
pub struct FolderEntry {
    pub name: String,
    pub kind: EntryKind,
}

/// The index of the last `c` in `s`, or -1 where there is none.
pub open spec fn last_index(s: Seq<char>, c: char) -> int
    decreases s.len(),
{
    if s.len() == 0 {
        -1
    } else if s.last() == c {
        s.len() - 1
    } else {
        last_index(s.drop_last(), c)
    }
}

/// The extension of a file name: what stands behind its last dot. A name
/// without a dot has none, nor has one whose only dot is its first
/// character, nor has the name `..`.
pub open spec fn extension(name: Seq<char>) -> Option<Seq<char>> {
    let dot = last_index(name, '.');
    if dot <= 0 || name == seq!['.', '.'] {
        None
    } else {
        Some(name.skip(dot + 1))
    }
}

/// A file name with the package extension `vpk`.
pub open spec fn is_package(name: Seq<char>) -> bool {
    extension(name) == Some("vpk"@)
}

/// No `c` stands behind position `at`, and one stands there (or `at` is -1):
/// then `at` is the last index of `c`.
pub proof fn lemma_last_index(s: Seq<char>, c: char, at: int)
    requires
        -1 <= at < s.len(),
        at >= 0 ==> s[at] == c,
        forall|k: int| at < k < s.len() ==> s[k] != c,
    ensures
        last_index(s, c) == at,
    decreases s.len(),
{
    if s.len() > 0 && at < s.len() - 1 {
        lemma_last_index(s.drop_last(), c, at);
    }
}

/// The extension of a file name, if it has one.
pub fn extension_of(name: &str) -> (ext: Option<String>)
    ensures
        option_view(ext) == extension(name@),
{
    let s = to_chars(name);
    let n: usize = s.len();
    let mut i: usize = n;
    while i > 0 && s[i - 1] != '.'
        invariant
            i <= n,
            n == s.len(),
            forall|k: int| i <= k < n ==> s[k] != '.',
        decreases i,
    {
        i -= 1;
    }
    proof {
        lemma_last_index(s@, '.', i - 1);
    }
    if i <= 1 {
        return None;
    }
    if n == 2 && s[0] == '.' {
        proof {
            assert(s@ =~= seq!['.', '.']);
        }
        return None;
    }
    proof {
        if s@ == seq!['.', '.'] {
            assert(seq!['.', '.'].len() == 2);
            assert(seq!['.', '.'][0] == '.');
        }
    }
    let mut rest: Vec<char> = Vec::new();
    let mut k: usize = i;
    while k < n
        invariant
            i <= k <= n,
            n == s.len(),
            rest@ == s@.subrange(i as int, k as int),
        decreases n - k,
    {
        rest.push(s[k]);
        proof {
            assert(s@.subrange(i as int, k + 1) =~= s@.subrange(i as int, k as int).push(
                s[k as int],
            ));
        }
        k += 1;
    }
    proof {
        assert(s@.subrange(i as int, n as int) =~= s@.skip(i as int));
    }
    Some(to_string(&rest))
}

/// Whether a file name has the package extension.
pub fn is_package_name(name: &str) -> (package: bool)
    ensures
        package == is_package(name@),
{
    match extension_of(name) {
        Some(ext) => ext == String::from_str("vpk"),
        None => false,
    }
}

/// Whether a directory entry is listed as an addon: a plain file, or where
/// `links` is set also a link to a file, whose name has the package
/// extension.
pub open spec fn is_listed(entry: FolderEntry, links: bool) -> bool {
    &&& entry.kind == EntryKind::File || (links && entry.kind == EntryKind::SymlinkFile)
    &&& is_package(entry.name@)
}

/// The names of the listed entries among the first `n`, in the order of the
/// listing.
pub open spec fn listed_upto(entries: Seq<FolderEntry>, links: bool, n: int) -> Seq<Seq<char>>
    decreases n,
{
    if n <= 0 {
        Seq::<Seq<char>>::empty()
    } else if is_listed(entries[n - 1], links) {
        listed_upto(entries, links, n - 1).push(entries[n - 1].name@)
    } else {
        listed_upto(entries, links, n - 1)
    }
}

/// The names of the addons in a directory listing.
pub open spec fn listed(entries: Seq<FolderEntry>, links: bool) -> Seq<Seq<char>> {
    listed_upto(entries, links, entries.len() as int)
}

/// The views of the strings of `v`, in order.
pub open spec fn names(v: Seq<String>) -> Seq<Seq<char>> {
    Seq::new(v.len(), |i: int| v[i]@)
}

fn list_addons(entries: &Vec<FolderEntry>, links: bool) -> (addons: Vec<String>)
    ensures
        names(addons@) == listed(entries@, links),
{
    let mut addons: Vec<String> = Vec::new();
    let mut i: usize = 0;
    while i < entries.len()
        invariant
            i <= entries.len(),
            names(addons@) == listed_upto(entries@, links, i as int),
        decreases entries.len() - i,
    {
        let entry = &entries[i];
        let of_kind = match entry.kind {
            EntryKind::File => true,
            EntryKind::SymlinkFile => links,
            _ => false,
        };
        if of_kind && is_package_name(entry.name.as_str()) {
            let ghost sofar = names(addons@);
            addons.push(entry.name.clone());
            proof {
                assert(names(addons@) =~= sofar.push(entry.name@));
            }
        }
        i += 1;
    }
    addons
}

/// The addons of the library, given the entries of its directory: the plain
/// files with the package extension, in the order of the listing.
pub fn list_installed_addons(entries: &Vec<FolderEntry>) -> (addons: Vec<String>)
    ensures
        names(addons@) == listed(entries@, false),
{
    list_addons(entries, false)
}

/// The mounted addons, given the entries of the mount directory: the plain
/// files and the links to files with the package extension, in the order of
/// the listing.
pub fn list_mounted_addons(entries: &Vec<FolderEntry>) -> (addons: Vec<String>)
    ensures
        names(addons@) == listed(entries@, true),
{
    list_addons(entries, true)
}

/// Where an addon is present: in the library, in the mount directory, in
/// both or in neither. The two are independent.
#[derive(Debug, Clone, Copy, PartialEq, Eq, Structural)]
pub struct AddonPresence {
    pub in_library: bool,
    pub in_mount: bool,
}

/// Where an addon stands in its life cycle.
#[derive(Debug, Clone, Copy, PartialEq, Eq, Structural)]
pub enum AddonState {
    /// Neither in the library nor mounted.
    Unknown,
    /// In the library, and not mounted.
    InLibrary,
    /// In the library, and mounted.
    LibraryAndMounted,
    /// Mounted, while the library has lost its file.
    MountedOnly,
}

impl AddonPresence {
    /// The state that the presence of an addon amounts to.
    pub open spec fn state_of(self) -> AddonState {
        if self.in_library && self.in_mount {
            AddonState::LibraryAndMounted
        } else if self.in_library {
            AddonState::InLibrary
        } else if self.in_mount {
            AddonState::MountedOnly
        } else {
            AddonState::Unknown
        }
    }

    /// The state that the presence of an addon amounts to.
    pub fn state(&self) -> (state: AddonState)
        ensures
            state == self.state_of(),
    {
        if self.in_library && self.in_mount {
            AddonState::LibraryAndMounted
        } else if self.in_library {
            AddonState::InLibrary
        } else if self.in_mount {
            AddonState::MountedOnly
        } else {
            AddonState::Unknown
        }
    }
}

/// How an addon is brought into the mount directory.
#[derive(Debug, Clone, Copy, PartialEq, Eq, Structural)]
pub enum MountAction {
    /// The bytes of the library file are duplicated.
    Copy,
    /// A link to the library file is made.
    Link,
}

/// What is to be done to take an addon out of the mount directory.
#[derive(Debug, Clone, Copy, PartialEq, Eq, Structural)]
pub struct UnmountPlan {
    /// The library has no file of this name: before the mounted file is
    /// removed, its bytes are copied back into the library. A failure of that
    /// copy does not stop the removal.
    pub backfill: bool,
}

/// What mounting decides: the addon must be in the library and must not be
/// mounted yet. A link is made only where links are the chosen method and
/// are available at this moment; in every other case the file is copied.
pub open spec fn mount_decision(
    presence: AddonPresence,
    method: DeployMethod,
    link_available: bool,
) -> Result<MountAction, AddonError> {
    if !presence.in_library {
        Err(AddonError::AddonIsNotInstalled)
    } else if presence.in_mount {
        Err(AddonError::AddonAlreadyMounted)
    } else if method == DeployMethod::Symlink && link_available {
        Ok(MountAction::Link)
    } else {
        Ok(MountAction::Copy)
    }
}

/// What unmounting decides: the addon must be mounted; its bytes are copied
/// back first exactly where the library lacks it.
pub open spec fn unmount_decision(presence: AddonPresence) -> Result<UnmountPlan, AddonError> {
    if !presence.in_mount {
        Err(AddonError::AddonIsNotMounted)
    } else {
        Ok(UnmountPlan { backfill: !presence.in_library })
    }
}

/// What uninstalling decides: the addon must be in the library, and it must
/// not be mounted.
pub open spec fn uninstall_decision(presence: AddonPresence) -> Result<(), AddonError> {
    if !presence.in_library {
        Err(AddonError::AddonIsNotInstalled)
    } else if presence.in_mount {
        Err(AddonError::CannotDeleteMountedAddon)
    } else {
        Ok(())
    }
}

/// Decides whether and how an addon is mounted.
pub fn mount_addon(presence: AddonPresence, method: DeployMethod, link_available: bool) -> (decision:
    Result<MountAction, AddonError>)
    ensures
        decision == mount_decision(presence, method, link_available),
{
    if !presence.in_library {
        Err(AddonError::AddonIsNotInstalled)
    } else if presence.in_mount {
        Err(AddonError::AddonAlreadyMounted)
    } else if method == DeployMethod::Symlink && link_available {
        Ok(MountAction::Link)
    } else {
        Ok(MountAction::Copy)
    }
}

/// Decides whether an addon is unmounted, and whether its bytes are copied
/// back into the library first.
pub fn unmount_addon(presence: AddonPresence) -> (decision: Result<UnmountPlan, AddonError>)
    ensures
        decision == unmount_decision(presence),
{
    if !presence.in_mount {
        Err(AddonError::AddonIsNotMounted)
    } else {
        Ok(UnmountPlan { backfill: !presence.in_library })
    }
}

/// Decides whether an addon is removed from the library.
pub fn uninstall_addon(presence: AddonPresence) -> (decision: Result<(), AddonError>)
    ensures
        decision == uninstall_decision(presence),
{
    if !presence.in_library {
        Err(AddonError::AddonIsNotInstalled)
    } else if presence.in_mount {
        Err(AddonError::CannotDeleteMountedAddon)
    } else {
        Ok(())
    }
}

/// The name an addon is stored under: the name asked for, or else the file
/// name of the source. The source must exist and its file name must have the
/// package extension, whatever name was asked for.
pub open spec fn install_name(
    source_exists: bool,
    source_name: Option<Seq<char>>,
    asked: Option<Seq<char>>,
) -> Option<Seq<char>> {
    if source_exists && source_name is Some && is_package(source_name->0) {
        if asked is Some {
            asked
        } else {
            source_name
        }
    } else {
        None
    }
}

/// Whether `chosen` is what `install_name` gives for a source with the file
/// name `source_name`: the name where there is one, and `InvalidAddonFile`
/// where there is none.
pub open spec fn is_install_choice(
    chosen: Result<String, AddonError>,
    source_exists: bool,
    source_name: Option<Seq<char>>,
    asked: Option<Seq<char>>,
) -> bool {
    match chosen {
        Ok(name) => Some(name@) == install_name(source_exists, source_name, asked),
        Err(e) => e == AddonError::InvalidAddonFile && install_name(
            source_exists,
            source_name,
            asked,
        ) is None,
    }
}

/// Decides under which name an addon is stored, given whether the source
/// exists, the file name of the source where its path has one, and the name
/// asked for. Every refusal is `InvalidAddonFile`.
pub fn choose_install_name(
    source_exists: bool,
    source_name: Option<String>,
    asked: Option<String>,
) -> (chosen: Result<String, AddonError>)
    ensures
        is_install_choice(chosen, source_exists, option_view(source_name), option_view(asked)),
{
    if !source_exists {
        return Err(AddonError::InvalidAddonFile);
    }
    match source_name {
        Some(source) => {
            if !is_package_name(source.as_str()) {
                return Err(AddonError::InvalidAddonFile);
            }
            match asked {
                Some(name) => Ok(name),
                None => Ok(source),
            }
        },
        None => Err(AddonError::InvalidAddonFile),
    }
}

/// Checks the source of an installation and gives the name under which the
/// addon is to be copied into the library. `source_exists` says whether the
/// file at `input.file_path` exists. The source must exist and the file name
/// of its path must have the package extension; the name is the one asked
/// for, or else that file name. Every refusal is `InvalidAddonFile`.
pub fn install_addon(input: &InstallAddonInfo, source_exists: bool) -> (chosen: Result<
    String,
    AddonError,
>)
    ensures
        is_install_choice(
            chosen,
            source_exists,
            file_name_in(input.file_path@),
            option_view(input.file_name),
        ),
{
    let source_name = file_name_of(input.file_path.as_str());
    let asked = input.file_name.clone();
    choose_install_name(source_exists, source_name, asked)
}

/// One step of a change of the deploy method.
#[derive(Debug, Clone)]
pub enum DeployStep {
    /// Take the addon of this name out of the mount directory.
    Unmount(String),
    /// Store the new method in the settings.
    Persist(DeployMethod),
    /// Mount the addon of this name, by the method that is then in force.
    Mount(String),
}

/// The steps by which the deploy method is changed while the addons named
/// in `mounted` are mounted: every one of them is unmounted, the method is
/// stored, and every one of them is mounted again, in the same order.
pub open spec fn is_redeployment(
    steps: Seq<DeployStep>,
    mounted: Seq<Seq<char>>,
    method: DeployMethod,
) -> bool {
    &&& steps.len() == 2 * mounted.len() + 1
    &&& forall|i: int|
        0 <= i < mounted.len() ==> (#[trigger] steps[i] matches DeployStep::Unmount(name)
            && name@ == mounted[i])
    &&& steps[mounted.len() as int] == DeployStep::Persist(method)
    &&& forall|i: int|
        0 <= i < mounted.len() ==> (#[trigger] steps[mounted.len() + 1 + i] matches DeployStep::Mount(
            name,
        ) && name@ == mounted[i])
}

/// Plans a change of the deploy method, given the addons that are mounted.
/// The steps are carried out in order; when one fails the rest is left
/// undone.
pub fn set_deploy_method(mounted: &Vec<String>, method: DeployMethod) -> (steps: Vec<DeployStep>)
    ensures
        is_redeployment(steps@, names(mounted@), method),
{
    let n: usize = mounted.len();
    let mut steps: Vec<DeployStep> = Vec::new();
    let mut i: usize = 0;
    while i < n
        invariant
            i <= n,
            n == mounted.len(),
            steps.len() == i,
            forall|k: int|
                0 <= k < i ==> (#[trigger] steps[k] matches DeployStep::Unmount(name) && name@
                    == mounted[k]@),
        decreases n - i,
    {
        steps.push(DeployStep::Unmount(mounted[i].clone()));
        i += 1;
    }
    steps.push(DeployStep::Persist(method));
    let mut j: usize = 0;
    while j < n
        invariant
            j <= n,
            n == mounted.len(),
            steps.len() == n + 1 + j,
            forall|k: int|
                0 <= k < n ==> (#[trigger] steps[k] matches DeployStep::Unmount(name) && name@
                    == mounted[k]@),
            steps[n as int] == DeployStep::Persist(method),
            forall|k: int|
                0 <= k < j ==> (#[trigger] steps[n + 1 + k] matches DeployStep::Mount(name)
                    && name@ == mounted[k]@),
        decreases n - j,
    {
        steps.push(DeployStep::Mount(mounted[j].clone()));
        j += 1;
    }
    steps
}

} // verus!
