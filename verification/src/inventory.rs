//! A picture of the library and of the mount directory as two lists of file
//! names, on which the operations of the deployment life cycle can be run
//! and their rules stated without a disk. Every file operation that a
//! decision calls for is taken to succeed.
use crate::addons::{
    is_package, is_package_name, mount_addon, mount_decision, names, uninstall_addon,
    uninstall_decision, unmount_addon, unmount_decision, AddonPresence, AddonState, DeployMethod,
    MountAction, UnmountPlan,
};
use crate::error::AddonError;
use vstd::prelude::*;

verus! {

/// The names of the files in the library and in the mount directory.
#[derive(Debug, Clone)]
pub struct AddonInventory {
    library: Vec<String>,
    mounted: Vec<String>,
}

/// What an `AddonInventory` holds.
pub struct AddonInventoryView {
    pub library: Seq<Seq<char>>,
    pub mounted: Seq<Seq<char>>,
}

impl View for AddonInventory {
    type V = AddonInventoryView;

    closed spec fn view(&self) -> AddonInventoryView {
        AddonInventoryView { library: names(self.library@), mounted: names(self.mounted@) }
    }
}

impl AddonInventoryView {
    /// Where the addon of this name is present.
    pub open spec fn presence(self, name: Seq<char>) -> AddonPresence {
        AddonPresence {
            in_library: self.library.contains(name),
            in_mount: self.mounted.contains(name),
        }
    }

    /// The inventory once a file was copied into the library under `name`.
    pub open spec fn after_install(self, name: Seq<char>) -> AddonInventoryView {
        AddonInventoryView { library: with_name(self.library, name), mounted: self.mounted }
    }

    /// The inventory once the addon was asked to be mounted: it stands in
    /// the mount directory where the decision allowed it, and nothing has
    /// changed where it did not.
    pub open spec fn after_mount(self, name: Seq<char>) -> AddonInventoryView {
        if mount_decision(self.presence(name), DeployMethod::Copy, false) is Ok {
            AddonInventoryView { library: self.library, mounted: self.mounted.push(name) }
        } else {
            self
        }
    }

    /// The inventory once the addon was asked to be unmounted: it is gone
    /// from the mount directory and stands in the library where the decision
    /// allowed it, and nothing has changed where it did not.
    pub open spec fn after_unmount(self, name: Seq<char>) -> AddonInventoryView {
        if unmount_decision(self.presence(name)) is Ok {
            AddonInventoryView {
                library: with_name(self.library, name),
                mounted: without_name(self.mounted, name),
            }
        } else {
            self
        }
    }

    /// The inventory once the addon was asked to be uninstalled: it is gone
    /// from the library where the decision allowed it, and nothing has
    /// changed where it did not.
    pub open spec fn after_uninstall(self, name: Seq<char>) -> AddonInventoryView {
        if uninstall_decision(self.presence(name)) is Ok {
            AddonInventoryView {
                library: without_name(self.library, name),
                mounted: self.mounted,
            }
        } else {
            self
        }
    }
}

/// The names of `all` but `name`, in order.
pub open spec fn without_name(all: Seq<Seq<char>>, name: Seq<char>) -> Seq<Seq<char>>
    decreases all.len(),
{
    if all.len() == 0 {
        all
    } else if all.last() == name {
        without_name(all.drop_last(), name)
    } else {
        without_name(all.drop_last(), name).push(all.last())
    }
}

/// `all` with `name` at its end, unless it is there already.
pub open spec fn with_name(all: Seq<Seq<char>>, name: Seq<char>) -> Seq<Seq<char>> {
    if all.contains(name) {
        all
    } else {
        all.push(name)
    }
}

/// The names with the package extension among `all`, in order.
pub open spec fn packages(all: Seq<Seq<char>>) -> Seq<Seq<char>>
    decreases all.len(),
{
    if all.len() == 0 {
        all
    } else if is_package(all.last()) {
        packages(all.drop_last()).push(all.last())
    } else {
        packages(all.drop_last())
    }
}

/// Taking a name out leaves exactly the other names.
pub proof fn lemma_without_name(all: Seq<Seq<char>>, name: Seq<char>, other: Seq<char>)
    ensures
        without_name(all, name).contains(other) <==> all.contains(other) && other != name,
    decreases all.len(),
{
    if all.len() > 0 {
        let front = all.drop_last();
        lemma_without_name(front, name, other);
        let rest = without_name(front, name);
        if all.contains(other) {
            let i = choose|i: int| 0 <= i < all.len() && all[i] == other;
            if i < all.len() - 1 {
                assert(front[i] == other);
            }
        }
        if front.contains(other) {
            let i = choose|i: int| 0 <= i < front.len() && front[i] == other;
            assert(all[i] == other);
        }
        if all.last() == other {
            assert(all[all.len() - 1] == other);
        }
        if all.last() != name {
            let out = rest.push(all.last());
            if rest.contains(other) {
                let i = choose|i: int| 0 <= i < rest.len() && rest[i] == other;
                assert(out[i] == other);
            }
            if all.last() == other {
                assert(out[out.len() - 1] == other);
            }
            if out.contains(other) {
                let i = choose|i: int| 0 <= i < out.len() && out[i] == other;
                if i < rest.len() {
                    assert(rest[i] == other);
                }
            }
        }
    }
}

/// A listing names exactly the packages among the names.
pub proof fn lemma_packages(all: Seq<Seq<char>>, name: Seq<char>)
    ensures
        packages(all).contains(name) <==> all.contains(name) && is_package(name),
    decreases all.len(),
{
    if all.len() > 0 {
        let front = all.drop_last();
        lemma_packages(front, name);
        let rest = packages(front);
        if all.contains(name) {
            let i = choose|i: int| 0 <= i < all.len() && all[i] == name;
            if i < all.len() - 1 {
                assert(front[i] == name);
            }
        }
        if front.contains(name) {
            let i = choose|i: int| 0 <= i < front.len() && front[i] == name;
            assert(all[i] == name);
        }
        if all.last() == name {
            assert(all[all.len() - 1] == name);
        }
        if is_package(all.last()) {
            let out = rest.push(all.last());
            if rest.contains(name) {
                let i = choose|i: int| 0 <= i < rest.len() && rest[i] == name;
                assert(out[i] == name);
            }
            if all.last() == name {
                assert(out[out.len() - 1] == name);
            }
            if out.contains(name) {
                let i = choose|i: int| 0 <= i < out.len() && out[i] == name;
                if i < rest.len() {
                    assert(rest[i] == name);
                }
            }
        }
    }
}

fn contains_name(all: &Vec<String>, name: &String) -> (found: bool)
    ensures
        found == names(all@).contains(name@),
{
    let mut i: usize = 0;
    while i < all.len()
        invariant
            i <= all.len(),
            forall|k: int| 0 <= k < i ==> names(all@)[k] != name@,
        decreases all.len() - i,
    {
        if all[i] == *name {
            assert(names(all@)[i as int] == name@);
            return true;
        }
        i += 1;
    }
    false
}

fn remove_name(all: &Vec<String>, name: &String) -> (out: Vec<String>)
    ensures
        names(out@) == without_name(names(all@), name@),
{
    let mut out: Vec<String> = Vec::new();
    let mut i: usize = 0;
    proof {
        assert(names(all@).take(0) =~= Seq::<Seq<char>>::empty());
    }
    while i < all.len()
        invariant
            i <= all.len(),
            names(out@) == without_name(names(all@).take(i as int), name@),
        decreases all.len() - i,
    {
        proof {
            assert(names(all@).take(i + 1).drop_last() =~= names(all@).take(i as int));
        }
        if all[i] != *name {
            let ghost sofar = names(out@);
            out.push(all[i].clone());
            proof {
                assert(names(out@) =~= sofar.push(all[i as int]@));
            }
        }
        i += 1;
    }
    proof {
        assert(names(all@).take(i as int) =~= names(all@));
    }
    out
}

fn add_name(all: &mut Vec<String>, name: String)
    ensures
        names(final(all)@) == with_name(names(old(all)@), name@),
{
    if !contains_name(all, &name) {
        let ghost before = names(all@);
        all.push(name);
        proof {
            assert(names(all@) =~= before.push(name@));
        }
    }
}

fn list_packages(all: &Vec<String>) -> (out: Vec<String>)
    ensures
        names(out@) == packages(names(all@)),
{
    let mut out: Vec<String> = Vec::new();
    let mut i: usize = 0;
    proof {
        assert(names(all@).take(0) =~= Seq::<Seq<char>>::empty());
    }
    while i < all.len()
        invariant
            i <= all.len(),
            names(out@) == packages(names(all@).take(i as int)),
        decreases all.len() - i,
    {
        proof {
            assert(names(all@).take(i + 1).drop_last() =~= names(all@).take(i as int));
        }
        if is_package_name(all[i].as_str()) {
            let ghost sofar = names(out@);
            out.push(all[i].clone());
            proof {
                assert(names(out@) =~= sofar.push(all[i as int]@));
            }
        }
        i += 1;
    }
    proof {
        assert(names(all@).take(i as int) =~= names(all@));
    }
    out
}

impl AddonInventory {
    /// The inventory of a library and a mount directory with the given file
    /// names.
    pub fn new(library: Vec<String>, mounted: Vec<String>) -> (inventory: AddonInventory)
        ensures
            inventory@.library == names(library@),
            inventory@.mounted == names(mounted@),
    {
        AddonInventory { library, mounted }
    }

    /// Where the addon of this name is present.
    pub fn presence(&self, name: &str) -> (presence: AddonPresence)
        ensures
            presence == self@.presence(name@),
    {
        let name = String::from_str(name);
        AddonPresence {
            in_library: contains_name(&self.library, &name),
            in_mount: contains_name(&self.mounted, &name),
        }
    }

    /// The addons of the library: its names with the package extension.
    pub fn list_installed_addons(&self) -> (addons: Vec<String>)
        ensures
            names(addons@) == packages(self@.library),
    {
        list_packages(&self.library)
    }

    /// The mounted addons: the names in the mount directory with the package
    /// extension.
    pub fn list_mounted_addons(&self) -> (addons: Vec<String>)
        ensures
            names(addons@) == packages(self@.mounted),
    {
        list_packages(&self.mounted)
    }

    /// Records that a file was copied into the library under `name`. A file
    /// of that name that was there before is replaced, so the name is listed
    /// once.
    pub fn install_addon(&mut self, name: &str)
        ensures
            final(self)@ == old(self)@.after_install(name@),
    {
        add_name(&mut self.library, String::from_str(name));
    }

    /// Removes an addon from the library, where `uninstall_decision` allows
    /// it; otherwise nothing changes.
    pub fn uninstall_addon(&mut self, name: &str) -> (done: Result<(), AddonError>)
        ensures
            done == uninstall_decision(old(self)@.presence(name@)),
            final(self)@ == old(self)@.after_uninstall(name@),
    {
        let presence = self.presence(name);
        match uninstall_addon(presence) {
            Ok(()) => {
                self.library = remove_name(&self.library, &String::from_str(name));
                Ok(())
            },
            Err(e) => Err(e),
        }
    }

    /// Mounts an addon, where `mount_decision` allows it; otherwise nothing
    /// changes. The result says how the file is brought into the mount
    /// directory.
    pub fn mount_addon(&mut self, name: &str, method: DeployMethod, link_available: bool) -> (done:
        Result<MountAction, AddonError>)
        ensures
            done == mount_decision(old(self)@.presence(name@), method, link_available),
            final(self)@ == old(self)@.after_mount(name@),
    {
        let presence = self.presence(name);
        match mount_addon(presence, method, link_available) {
            Ok(action) => {
                let ghost before = names(self.mounted@);
                self.mounted.push(String::from_str(name));
                proof {
                    assert(names(self.mounted@) =~= before.push(name@));
                }
                Ok(action)
            },
            Err(e) => Err(e),
        }
    }

    /// Unmounts an addon, where `unmount_decision` allows it; otherwise
    /// nothing changes. Where the library lacked the addon it has it
    /// afterwards.
    pub fn unmount_addon(&mut self, name: &str) -> (done: Result<UnmountPlan, AddonError>)
        ensures
            done == unmount_decision(old(self)@.presence(name@)),
            final(self)@ == old(self)@.after_unmount(name@),
    {
        let presence = self.presence(name);
        match unmount_addon(presence) {
            Ok(plan) => {
                add_name(&mut self.library, String::from_str(name));
                self.mounted = remove_name(&self.mounted, &String::from_str(name));
                Ok(plan)
            },
            Err(e) => Err(e),
        }
    }
}

/// Taking out a name that is not there changes nothing.
pub proof fn lemma_without_absent(all: Seq<Seq<char>>, name: Seq<char>)
    requires
        !all.contains(name),
    ensures
        without_name(all, name) == all,
    decreases all.len(),
{
    if all.len() > 0 {
        let front = all.drop_last();
        assert(all[all.len() - 1] != name);
        assert forall|i: int| 0 <= i < front.len() implies front[i] != name by {
            assert(all[i] == front[i]);
        }
        lemma_without_absent(front, name);
        assert(front.push(all.last()) =~= all);
    }
}

/// Taking out a name that was put at the end of a list without it gives the
/// list back.
pub proof fn lemma_without_pushed(all: Seq<Seq<char>>, name: Seq<char>)
    requires
        !all.contains(name),
    ensures
        without_name(all.push(name), name) == all,
        all.push(name).contains(name),
{
    lemma_without_absent(all, name);
    assert(all.push(name).drop_last() =~= all);
    assert(all.push(name)[all.len() as int] == name);
}

/// A fresh addon goes through its whole life: once it is installed it can be
/// mounted, then unmounted without anything being copied back, then
/// uninstalled, and after that the library and the mount directory hold
/// what they held before, so the name is in neither listing.
pub proof fn law_life_cycle(
    inventory: AddonInventoryView,
    name: Seq<char>,
    method: DeployMethod,
    link_available: bool,
)
    requires
        !inventory.library.contains(name),
        !inventory.mounted.contains(name),
    ensures
        ({
            let installed = inventory.after_install(name);
            let mounted = installed.after_mount(name);
            let unmounted = mounted.after_unmount(name);
            let uninstalled = unmounted.after_uninstall(name);
            &&& mount_decision(installed.presence(name), method, link_available) is Ok
            &&& unmount_decision(mounted.presence(name)) == Ok::<UnmountPlan, AddonError>(
                UnmountPlan { backfill: false },
            )
            &&& uninstall_decision(unmounted.presence(name)) is Ok
            &&& uninstalled == inventory
            &&& !packages(uninstalled.library).contains(name)
            &&& !packages(uninstalled.mounted).contains(name)
        }),
{
    lemma_without_pushed(inventory.library, name);
    lemma_without_pushed(inventory.mounted, name);
    lemma_packages(inventory.library, name);
    lemma_packages(inventory.mounted, name);
}

/// An addon that is not in the library cannot be mounted: the answer is
/// "not installed", whatever else holds.
pub proof fn law_mount_needs_install(
    inventory: AddonInventoryView,
    name: Seq<char>,
    method: DeployMethod,
    link_available: bool,
)
    requires
        !inventory.library.contains(name),
    ensures
        mount_decision(inventory.presence(name), method, link_available) == Err::<
            MountAction,
            AddonError,
        >(AddonError::AddonIsNotInstalled),
{
}

/// An addon that was mounted cannot be mounted again while it stays
/// mounted: the answer is "already mounted".
pub proof fn law_mount_twice(
    inventory: AddonInventoryView,
    name: Seq<char>,
    method: DeployMethod,
    link_available: bool,
)
    requires
        mount_decision(inventory.presence(name), method, link_available) is Ok,
    ensures
        mount_decision(inventory.after_mount(name).presence(name), method, link_available) == Err::<
            MountAction,
            AddonError,
        >(AddonError::AddonAlreadyMounted),
{
    let after = inventory.after_mount(name);
    assert(after.mounted[inventory.mounted.len() as int] == name);
}

/// A mounted addon cannot be deleted from the library: the answer is
/// "cannot delete mounted". Once it is unmounted it can.
pub proof fn law_uninstall_waits_for_unmount(inventory: AddonInventoryView, name: Seq<char>)
    requires
        inventory.library.contains(name),
        inventory.mounted.contains(name),
    ensures
        uninstall_decision(inventory.presence(name)) == Err::<(), AddonError>(
            AddonError::CannotDeleteMountedAddon,
        ),
        unmount_decision(inventory.presence(name)) is Ok,
        uninstall_decision(inventory.after_unmount(name).presence(name)) == Ok::<(), AddonError>(()),
        !inventory.after_unmount(name).after_uninstall(name).library.contains(name),
        !inventory.after_unmount(name).after_uninstall(name).mounted.contains(name),
{
    lemma_without_name(inventory.mounted, name, name);
    lemma_without_name(inventory.library, name, name);
}

/// The edges of the life cycle of an addon. Installing brings it into the
/// library. It can be mounted only from `InLibrary`, and is then
/// `LibraryAndMounted`: nothing is mounted that the library does not hold.
/// It can be unmounted whenever it is mounted, and is then `InLibrary`. It
/// can be uninstalled only from `InLibrary`, and is then `Unknown`.
pub proof fn law_life_cycle_edges(
    inventory: AddonInventoryView,
    name: Seq<char>,
    method: DeployMethod,
    link_available: bool,
)
    ensures
        ({
            let state = inventory.presence(name).state_of();
            let installed = inventory.after_install(name).presence(name).state_of();
            let mounted = inventory.after_mount(name).presence(name).state_of();
            let unmounted = inventory.after_unmount(name).presence(name).state_of();
            let uninstalled = inventory.after_uninstall(name).presence(name).state_of();
            &&& installed == if state == AddonState::Unknown || state == AddonState::InLibrary {
                AddonState::InLibrary
            } else {
                AddonState::LibraryAndMounted
            }
            &&& mount_decision(inventory.presence(name), method, link_available) is Ok <==> state
                == AddonState::InLibrary
            &&& mounted == if state == AddonState::InLibrary {
                AddonState::LibraryAndMounted
            } else {
                state
            }
            &&& unmount_decision(inventory.presence(name)) is Ok <==> state
                == AddonState::LibraryAndMounted || state == AddonState::MountedOnly
            &&& unmounted == if state == AddonState::LibraryAndMounted || state
                == AddonState::MountedOnly {
                AddonState::InLibrary
            } else {
                state
            }
            &&& uninstall_decision(inventory.presence(name)) is Ok <==> state
                == AddonState::InLibrary
            &&& uninstalled == if state == AddonState::InLibrary {
                AddonState::Unknown
            } else {
                state
            }
        }),
{
    lemma_without_name(inventory.mounted, name, name);
    lemma_without_name(inventory.library, name, name);
    let more = inventory.library.push(name);
    assert(more[inventory.library.len() as int] == name);
    let up = inventory.mounted.push(name);
    assert(up[inventory.mounted.len() as int] == name);
}

/// An operation on one addon leaves every other addon where it is.
pub proof fn law_other_addons_stay(inventory: AddonInventoryView, name: Seq<char>, other: Seq<char>)
    requires
        other != name,
    ensures
        inventory.after_install(name).presence(other) == inventory.presence(other),
        inventory.after_mount(name).presence(other) == inventory.presence(other),
        inventory.after_unmount(name).presence(other) == inventory.presence(other),
        inventory.after_uninstall(name).presence(other) == inventory.presence(other),
{
    lemma_without_name(inventory.mounted, name, other);
    lemma_without_name(inventory.library, name, other);
    lemma_pushed(inventory.library, name, other);
    lemma_pushed(inventory.mounted, name, other);
}

/// A name stands in a list with one more name exactly where it stood before
/// or is that name.
pub proof fn lemma_pushed(all: Seq<Seq<char>>, name: Seq<char>, other: Seq<char>)
    ensures
        all.push(name).contains(other) <==> all.contains(other) || other == name,
        with_name(all, name).contains(other) <==> all.contains(other) || other == name,
{
    let more = all.push(name);
    assert(more[all.len() as int] == name);
    if all.contains(other) {
        let i = choose|i: int| 0 <= i < all.len() && all[i] == other;
        assert(more[i] == other);
    }
    if more.contains(other) {
        let i = choose|i: int| 0 <= i < more.len() && more[i] == other;
        if i < all.len() {
            assert(all[i] == other);
        }
    }
}

/// A link is made only where links are the chosen method and are available
/// when the addon is mounted; in every other case the file is copied.
pub proof fn law_link_only_when_available(
    presence: AddonPresence,
    method: DeployMethod,
    link_available: bool,
)
    ensures
        mount_decision(presence, method, link_available) == Ok::<MountAction, AddonError>(
            MountAction::Link,
        ) <==> presence.in_library && !presence.in_mount && method == DeployMethod::Symlink
            && link_available,
        mount_decision(presence, method, link_available) == Ok::<MountAction, AddonError>(
            MountAction::Copy,
        ) <==> presence.in_library && !presence.in_mount && !(method == DeployMethod::Symlink
            && link_available),
{
}

} // verus!
