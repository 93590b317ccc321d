use citadel_addons::addons::{
    choose_install_name, extension_of, install_addon, is_package_name, list_installed_addons,
    list_mounted_addons, mount_addon, set_deploy_method, uninstall_addon, unmount_addon,
    AddonPresence, AddonState, DeployMethod, DeployStep, EntryKind, FolderEntry,
    InstallAddonInfo, MountAction, UnmountPlan,
};
use citadel_addons::error::AddonError;
use citadel_addons::manager::AddonDeploymentManager;
use citadel_addons::paths::{
    decide_install_path, same_volume, InstallPathChange, InstallPathError,
};

fn entry(name: &str, kind: EntryKind) -> FolderEntry {
    FolderEntry { name: name.to_string(), kind }
}

fn present(in_library: bool, in_mount: bool) -> AddonPresence {
    AddonPresence { in_library, in_mount }
}

fn info(path: &str, name: Option<&str>) -> InstallAddonInfo {
    InstallAddonInfo {
        file_path: path.to_string(),
        file_name: name.map(|n| n.to_string()),
        display_name: None,
    }
}

#[test]
fn extension_is_what_follows_the_last_dot() {
    assert_eq!(extension_of("foo.vpk"), Some("vpk".to_string()));
    assert_eq!(extension_of("a.b.vpk"), Some("vpk".to_string()));
    assert_eq!(extension_of("foo.VPK"), Some("VPK".to_string()));
    assert_eq!(extension_of("foo."), Some(String::new()));
    assert_eq!(extension_of("..."), Some(String::new()));
    assert_eq!(extension_of("foo"), None);
    assert_eq!(extension_of(""), None);
    assert_eq!(extension_of(".vpk"), None);
    assert_eq!(extension_of("."), None);
    assert_eq!(extension_of(".."), None);
    assert_eq!(extension_of("..vpk"), Some("vpk".to_string()));
}

#[test]
fn extension_follows_the_standard_library() {
    let samples = [
        "foo.vpk", "a.b.vpk", "foo.", "...", "foo", "", ".vpk", ".", "..", "..vpk", "x.y.z",
        ".a.b", "pak01_dir.vpk", "name with space.vpk",
    ];
    for sample in samples {
        let want = std::path::Path::new(sample)
            .extension()
            .map(|e| e.to_string_lossy().into_owned());
        assert_eq!(extension_of(sample), want, "extension of {:?}", sample);
    }
}

#[test]
fn only_the_package_extension_makes_an_addon() {
    assert!(is_package_name("foo.vpk"));
    assert!(is_package_name("a.b.vpk"));
    assert!(!is_package_name("foo.VPK"));
    assert!(!is_package_name("foo.vpk.bak"));
    assert!(!is_package_name(".vpk"));
    assert!(!is_package_name("vpk"));
    assert!(!is_package_name("foo.vpkx"));
    assert!(!is_package_name("foo.vp"));
}

#[test]
fn library_listing_counts_plain_files_only() {
    let entries = vec![
        entry("b.vpk", EntryKind::File),
        entry("readme.txt", EntryKind::File),
        entry("dir.vpk", EntryKind::Directory),
        entry("link.vpk", EntryKind::SymlinkFile),
        entry("odd.vpk", EntryKind::Other),
        entry("a.vpk", EntryKind::File),
    ];
    assert_eq!(list_installed_addons(&entries), vec!["b.vpk".to_string(), "a.vpk".to_string()]);
    assert_eq!(list_installed_addons(&Vec::new()), Vec::<String>::new());
}

#[test]
fn mount_listing_counts_links_too() {
    let entries = vec![
        entry("b.vpk", EntryKind::File),
        entry("readme.txt", EntryKind::SymlinkFile),
        entry("dir.vpk", EntryKind::Directory),
        entry("link.vpk", EntryKind::SymlinkFile),
        entry("odd.vpk", EntryKind::Other),
    ];
    assert_eq!(list_mounted_addons(&entries), vec!["b.vpk".to_string(), "link.vpk".to_string()]);
}

#[test]
fn presence_tells_the_state() {
    assert_eq!(present(false, false).state(), AddonState::Unknown);
    assert_eq!(present(true, false).state(), AddonState::InLibrary);
    assert_eq!(present(true, true).state(), AddonState::LibraryAndMounted);
    assert_eq!(present(false, true).state(), AddonState::MountedOnly);
}

#[test]
fn mount_needs_an_installed_addon() {
    for method in [DeployMethod::Copy, DeployMethod::Symlink] {
        for link in [false, true] {
            assert!(matches!(
                mount_addon(present(false, false), method, link),
                Err(AddonError::AddonIsNotInstalled)
            ));
            assert!(matches!(
                mount_addon(present(false, true), method, link),
                Err(AddonError::AddonIsNotInstalled)
            ));
        }
    }
}

#[test]
fn mount_refuses_a_mounted_addon() {
    for method in [DeployMethod::Copy, DeployMethod::Symlink] {
        for link in [false, true] {
            assert!(matches!(
                mount_addon(present(true, true), method, link),
                Err(AddonError::AddonAlreadyMounted)
            ));
        }
    }
}

#[test]
fn mount_links_only_when_links_are_chosen_and_available() {
    let here = present(true, false);
    assert!(matches!(mount_addon(here, DeployMethod::Symlink, true), Ok(MountAction::Link)));
    assert!(matches!(mount_addon(here, DeployMethod::Symlink, false), Ok(MountAction::Copy)));
    assert!(matches!(mount_addon(here, DeployMethod::Copy, true), Ok(MountAction::Copy)));
    assert!(matches!(mount_addon(here, DeployMethod::Copy, false), Ok(MountAction::Copy)));
}

#[test]
fn unmount_needs_a_mounted_addon() {
    assert!(matches!(unmount_addon(present(true, false)), Err(AddonError::AddonIsNotMounted)));
    assert!(matches!(unmount_addon(present(false, false)), Err(AddonError::AddonIsNotMounted)));
}

#[test]
fn unmount_copies_back_what_the_library_lacks() {
    assert!(matches!(unmount_addon(present(true, true)), Ok(UnmountPlan { backfill: false })));
    assert!(matches!(unmount_addon(present(false, true)), Ok(UnmountPlan { backfill: true })));
}

#[test]
fn uninstall_decides_by_presence() {
    assert!(matches!(uninstall_addon(present(false, false)), Err(AddonError::AddonIsNotInstalled)));
    assert!(matches!(uninstall_addon(present(false, true)), Err(AddonError::AddonIsNotInstalled)));
    assert!(matches!(
        uninstall_addon(present(true, true)),
        Err(AddonError::CannotDeleteMountedAddon)
    ));
    assert!(matches!(uninstall_addon(present(true, false)), Ok(())));
}

#[test]
fn install_name_is_the_one_asked_for_or_the_source_name() {
    let source = || Some("pak.vpk".to_string());
    assert!(matches!(choose_install_name(true, source(), None), Ok(n) if n == "pak.vpk"));
    assert!(matches!(
        choose_install_name(true, source(), Some("other.bin".to_string())),
        Ok(n) if n == "other.bin"
    ));
    assert!(matches!(
        choose_install_name(false, source(), None),
        Err(AddonError::InvalidAddonFile)
    ));
    assert!(matches!(
        choose_install_name(true, None, Some("x.vpk".to_string())),
        Err(AddonError::InvalidAddonFile)
    ));
    assert!(matches!(
        choose_install_name(true, Some("pak.zip".to_string()), Some("x.vpk".to_string())),
        Err(AddonError::InvalidAddonFile)
    ));
    assert!(matches!(
        choose_install_name(true, Some(".vpk".to_string()), None),
        Err(AddonError::InvalidAddonFile)
    ));
}

#[test]
fn install_takes_the_file_name_off_the_path() {
    assert!(matches!(install_addon(&info("downloads/pak.vpk", None), true), Ok(n) if n == "pak.vpk"));
    assert!(matches!(install_addon(&info("pak.vpk", None), true), Ok(n) if n == "pak.vpk"));
    assert!(matches!(
        install_addon(&info("downloads/pak.vpk", Some("mine.vpk")), true),
        Ok(n) if n == "mine.vpk"
    ));
}

#[test]
fn install_refuses_an_invalid_source() {
    assert!(matches!(
        install_addon(&info("downloads/pak.vpk", None), false),
        Err(AddonError::InvalidAddonFile)
    ));
    assert!(matches!(
        install_addon(&info("downloads/pak.zip", Some("x.vpk")), true),
        Err(AddonError::InvalidAddonFile)
    ));
    assert!(matches!(
        install_addon(&info("downloads/pak", None), true),
        Err(AddonError::InvalidAddonFile)
    ));
    assert!(matches!(
        install_addon(&info("downloads.vpk/..", None), true),
        Err(AddonError::InvalidAddonFile)
    ));
    assert!(matches!(install_addon(&info("", None), true), Err(AddonError::InvalidAddonFile)));
}

fn manager(game: Option<&str>, library: Option<&str>) -> AddonDeploymentManager {
    AddonDeploymentManager::new(game.map(|p| p.to_string()), library.map(|p| p.to_string()))
}

#[test]
fn links_need_both_paths_on_one_volume() {
    assert!(manager(Some("/games/deadlock"), Some("/home/me/addons")).is_symlink_available());
    assert!(manager(Some("games/deadlock"), Some("games/addons")).is_symlink_available());
    assert!(!manager(Some("games/deadlock"), Some("library/addons")).is_symlink_available());
    assert!(!manager(Some("/games/deadlock"), Some("library/addons")).is_symlink_available());
    assert!(!manager(None, Some("/home/me/addons")).is_symlink_available());
    assert!(!manager(Some("/games/deadlock"), None).is_symlink_available());
    assert!(!manager(None, None).is_symlink_available());
    assert!(!manager(Some(""), Some("")).is_symlink_available());
}

#[test]
fn manager_links_only_on_one_volume() {
    let here = present(true, false);
    let near = manager(Some("/games/deadlock"), Some("/home/me/addons"));
    let far = manager(Some("/games/deadlock"), Some("library/addons"));
    assert!(matches!(near.mount_addon(here, DeployMethod::Symlink), Ok(MountAction::Link)));
    assert!(matches!(near.mount_addon(here, DeployMethod::Copy), Ok(MountAction::Copy)));
    assert!(matches!(far.mount_addon(here, DeployMethod::Symlink), Ok(MountAction::Copy)));
    assert!(matches!(
        near.mount_addon(present(false, false), DeployMethod::Symlink),
        Err(AddonError::AddonIsNotInstalled)
    ));
    assert!(matches!(
        near.mount_addon(present(true, true), DeployMethod::Symlink),
        Err(AddonError::AddonAlreadyMounted)
    ));
}

#[test]
fn unknown_paths_stop_an_operation() {
    let nothing = manager(None, None);
    assert!(matches!(nothing.require_game_path(), Err(AddonError::NoGamePath)));
    assert!(matches!(nothing.require_install_path(), Err(AddonError::NoInstallPath)));
    let both = manager(Some("/games/deadlock"), Some("/library"));
    assert!(matches!(both.require_game_path(), Ok(p) if p == "/games/deadlock"));
    assert!(matches!(both.require_install_path(), Ok(p) if p == "/library"));
    assert_eq!(both.get_game_path(), &Some("/games/deadlock".to_string()));
    assert_eq!(both.get_install_path(), &Some("/library".to_string()));
    assert_eq!(nothing.get_game_path(), &None);
    assert_eq!(nothing.get_install_path(), &None);
}

#[test]
fn volumes_are_compared_by_their_text() {
    let some = |s: &str| Some(s.to_string());
    assert!(same_volume(&some("C:"), &some("C:")));
    assert!(!same_volume(&some("C:"), &some("D:")));
    assert!(!same_volume(&some("C:"), &None));
    assert!(!same_volume(&None, &some("C:")));
    assert!(!same_volume(&None, &None));
}

#[test]
fn install_path_is_decided_in_order() {
    assert_eq!(
        decide_install_path(true, true, false, true, false),
        Ok(InstallPathChange::Unchanged)
    );
    assert_eq!(
        decide_install_path(false, true, false, false, true),
        Err(InstallPathError::NoGamePath)
    );
    assert_eq!(
        decide_install_path(true, false, false, true, true),
        Err(InstallPathError::NoGamePath)
    );
    assert_eq!(
        decide_install_path(true, false, true, true, true),
        Err(InstallPathError::InsideGamePath)
    );
    assert_eq!(
        decide_install_path(true, false, true, false, false),
        Err(InstallPathError::NotFound)
    );
    assert_eq!(
        decide_install_path(true, false, true, false, true),
        Ok(InstallPathChange::Changed { migrate: true })
    );
    assert_eq!(
        decide_install_path(false, false, true, false, true),
        Ok(InstallPathChange::Changed { migrate: false })
    );
}

#[test]
fn install_path_inside_the_game_is_refused() {
    let mut at = manager(Some("/games/deadlock"), None);
    assert_eq!(
        at.set_install_path("/games/deadlock/game/citadel/addons".to_string(), true),
        Err(InstallPathError::InsideGamePath)
    );
    assert_eq!(
        at.set_install_path("/games/deadlock".to_string(), true),
        Err(InstallPathError::InsideGamePath)
    );
    assert_eq!(at.get_install_path(), &None);
    assert_eq!(
        at.set_install_path("/games/deadlock-addons".to_string(), true),
        Ok(InstallPathChange::Changed { migrate: false })
    );
    assert_eq!(at.get_install_path(), &Some("/games/deadlock-addons".to_string()));
    assert_eq!(at.get_game_path(), &Some("/games/deadlock".to_string()));
}

#[test]
fn install_path_must_exist_and_the_game_be_known() {
    let mut fresh = manager(Some("/games/deadlock"), None);
    assert_eq!(
        fresh.set_install_path("/new/library".to_string(), false),
        Err(InstallPathError::NotFound)
    );
    assert_eq!(fresh.get_install_path(), &None);
    let mut lost = manager(None, Some("/old/library"));
    assert_eq!(
        lost.set_install_path("/new/library".to_string(), true),
        Err(InstallPathError::NoGamePath)
    );
    assert_eq!(lost.get_install_path(), &Some("/old/library".to_string()));
    let mut moved = manager(Some("/games/deadlock"), Some("/old/library"));
    assert_eq!(
        moved.set_install_path("/new/library".to_string(), true),
        Ok(InstallPathChange::Changed { migrate: true })
    );
    assert_eq!(moved.get_install_path(), &Some("/new/library".to_string()));
}

#[test]
fn the_same_install_path_changes_nothing() {
    let mut same = manager(None, Some("/old/library"));
    assert_eq!(
        same.set_install_path("/old/library".to_string(), false),
        Ok(InstallPathChange::Unchanged)
    );
    assert_eq!(
        same.set_install_path("/old/library/".to_string(), false),
        Ok(InstallPathChange::Unchanged)
    );
    assert_eq!(same.get_install_path(), &Some("/old/library".to_string()));
}

#[test]
fn install_path_errors_have_messages() {
    assert_eq!(InstallPathError::NoGamePath.message(), "Game path not found");
    assert_eq!(
        InstallPathError::InsideGamePath.message(),
        "Addon storage path cannot be inside the game path."
    );
    assert_eq!(InstallPathError::NotFound.message(), "Addon storage path does not exist.");
}

#[test]
fn addons_are_copied_by_default() {
    assert_eq!(DeployMethod::default(), DeployMethod::Copy);
}

#[test]
fn redeployment_unmounts_all_then_mounts_all_in_order() {
    let mounted = vec!["a.vpk".to_string(), "b.vpk".to_string()];
    let steps = set_deploy_method(&mounted, DeployMethod::Symlink);
    assert_eq!(steps.len(), 5);
    assert!(matches!(&steps[0], DeployStep::Unmount(n) if n == "a.vpk"));
    assert!(matches!(&steps[1], DeployStep::Unmount(n) if n == "b.vpk"));
    assert!(matches!(&steps[2], DeployStep::Persist(DeployMethod::Symlink)));
    assert!(matches!(&steps[3], DeployStep::Mount(n) if n == "a.vpk"));
    assert!(matches!(&steps[4], DeployStep::Mount(n) if n == "b.vpk"));
}

#[test]
fn redeployment_of_nothing_only_stores_the_method() {
    let steps = set_deploy_method(&Vec::new(), DeployMethod::Copy);
    assert_eq!(steps.len(), 1);
    assert!(matches!(&steps[0], DeployStep::Persist(DeployMethod::Copy)));
}

#[test]
fn addon_errors_have_messages() {
    assert_eq!(AddonError::NoInstallPath.message(), "Storage path not found");
    assert_eq!(AddonError::NoGamePath.message(), "Game path not found");
    assert_eq!(AddonError::InvalidAddonFile.message(), "Invalid addon file");
    assert_eq!(AddonError::AddonIsNotInstalled.message(), "Addon is not stored");
    assert_eq!(AddonError::AddonAlreadyMounted.message(), "Addon is already installed");
    assert_eq!(AddonError::AddonIsNotMounted.message(), "Addon is not installed");
    assert_eq!(AddonError::CannotDeleteMountedAddon.message(), "Cannot delete installed addon");
}

#[test]
fn addon_errors_with_a_cause_end_with_its_text() {
    let cause = || std::io::Error::new(std::io::ErrorKind::Other, "disk on fire");
    assert_eq!(
        AddonError::CouldNotCreateAddonFolder(cause()).message(),
        "Could not create addons folder: disk on fire"
    );
    assert_eq!(
        AddonError::CouldNotReadInstallFolder(cause()).message(),
        "Could not read storage path: disk on fire"
    );
    assert_eq!(
        AddonError::CouldNotReadAddonFolder(cause()).message(),
        "Could not read addons folder: disk on fire"
    );
    assert_eq!(
        AddonError::CouldNotWriteAddonFolder(cause()).message(),
        "Could not write addons folder: disk on fire"
    );
    assert_eq!(
        AddonError::CouldNotWriteInstallFolder(cause()).message(),
        "Could not write storage folder: disk on fire"
    );
}
