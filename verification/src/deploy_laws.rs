//! What holds of a change of the deploy method, run on the picture of the
//! library and the mount directory.
use crate::addons::{
    is_redeployment, mount_decision, unmount_decision, DeployMethod, DeployStep,
};
use crate::inventory::{
    lemma_packages, lemma_pushed, lemma_without_name, packages, AddonInventoryView,
};
use vstd::prelude::*;

verus! {

/// Whether a step is allowed on an inventory: an addon that is unmounted
/// must be mounted, and one that is mounted must be in the library and not
/// mounted.
pub open spec fn step_allowed(inventory: AddonInventoryView, step: DeployStep) -> bool {
    match step {
        DeployStep::Unmount(name) => unmount_decision(inventory.presence(name@)) is Ok,
        DeployStep::Persist(_) => true,
        DeployStep::Mount(name) => mount_decision(
            inventory.presence(name@),
            DeployMethod::Copy,
            false,
        ) is Ok,
    }
}

/// The inventory once a step was carried out.
pub open spec fn after_step(inventory: AddonInventoryView, step: DeployStep) -> AddonInventoryView {
    match step {
        DeployStep::Unmount(name) => inventory.after_unmount(name@),
        DeployStep::Persist(_) => inventory,
        DeployStep::Mount(name) => inventory.after_mount(name@),
    }
}

/// The inventory once the steps were carried out, one after another.
pub open spec fn after_steps(inventory: AddonInventoryView, steps: Seq<DeployStep>) -> AddonInventoryView
    decreases steps.len(),
{
    if steps.len() == 0 {
        inventory
    } else {
        after_step(after_steps(inventory, steps.drop_last()), steps.last())
    }
}

/// Every step is allowed on the inventory that the steps before it leave.
pub open spec fn all_allowed(inventory: AddonInventoryView, steps: Seq<DeployStep>) -> bool {
    forall|n: int|
        0 <= n < steps.len() ==> step_allowed(
            after_steps(inventory, #[trigger] steps.take(n)),
            steps[n],
        )
}

/// `name` is one of the first `n` names of `list`.
pub open spec fn among(list: Seq<Seq<char>>, n: int, name: Seq<char>) -> bool {
    exists|i: int| 0 <= i < n && i < list.len() && #[trigger] list[i] == name
}

/// The names with the package extension come without duplicates from a list
/// without duplicates.
pub proof fn lemma_packages_unique(all: Seq<Seq<char>>)
    requires
        all.no_duplicates(),
    ensures
        packages(all).no_duplicates(),
    decreases all.len(),
{
    if all.len() > 0 {
        let front = all.drop_last();
        assert(front.no_duplicates()) by {
            assert forall|i: int, j: int| 0 <= i < j < front.len() implies front[i] != front[j] by {
                assert(all[i] == front[i] && all[j] == front[j]);
            }
        }
        lemma_packages_unique(front);
        lemma_packages(front, all.last());
        if front.contains(all.last()) {
            let i = choose|i: int| 0 <= i < front.len() && front[i] == all.last();
            assert(all[i] == all[all.len() - 1]);
        }
    }
}

/// What the inventory holds after the first `n` steps of a redeployment:
/// while addons are unmounted, the mount directory has lost and the library
/// has gained the names gone through so far; while they are mounted, the
/// mount directory has gained those names again. Every step so far was
/// allowed.
pub proof fn lemma_redeployment_so_far(
    inventory: AddonInventoryView,
    steps: Seq<DeployStep>,
    method: DeployMethod,
    n: int,
)
    requires
        inventory.mounted.no_duplicates(),
        is_redeployment(steps, packages(inventory.mounted), method),
        0 <= n <= steps.len(),
    ensures
        ({
            let list = packages(inventory.mounted);
            let now = after_steps(inventory, steps.take(n));
            let done = if n <= list.len() {
                n
            } else {
                list.len() as int
            };
            let back = if n <= list.len() {
                0
            } else {
                n - list.len() - 1
            };
            &&& forall|x: Seq<char>| #[trigger]
                now.mounted.contains(x) <==> (inventory.mounted.contains(x) && !among(list, done, x))
                    || among(list, back, x)
            &&& forall|x: Seq<char>| #[trigger]
                now.library.contains(x) <==> inventory.library.contains(x) || among(list, done, x)
            &&& forall|k: int|
                0 <= k < n ==> step_allowed(
                    after_steps(inventory, #[trigger] steps.take(k)),
                    steps[k],
                )
        }),
    decreases n,
{
    let list = packages(inventory.mounted);
    let count: int = list.len() as int;
    lemma_packages_unique(inventory.mounted);
    if n == 0 {
        assert(steps.take(0) =~= Seq::<DeployStep>::empty());
    } else {
        lemma_redeployment_so_far(inventory, steps, method, n - 1);
        let before = after_steps(inventory, steps.take(n - 1));
        let now = after_steps(inventory, steps.take(n));
        let step = steps[n - 1];
        assert(steps.take(n).drop_last() =~= steps.take(n - 1));
        assert(steps.take(n).last() == step);
        assert(now == after_step(before, step));
        if n - 1 < count {
            // An addon is unmounted.
            let name = list[n - 1];
            assert(step matches DeployStep::Unmount(s) && s@ == name);
            lemma_packages(inventory.mounted, name);
            assert(list.contains(name));
            assert(before.mounted.contains(name)) by {
                if among(list, n - 1, name) {
                    let i = choose|i: int| 0 <= i < n - 1 && i < list.len() && #[trigger] list[i]
                        == name;
                    assert(list[i] == list[n - 1]);
                }
            }
            assert(step_allowed(before, step));
            assert forall|x: Seq<char>|
                (#[trigger] now.mounted.contains(x) <==> (inventory.mounted.contains(x) && !among(
                    list,
                    n,
                    x,
                )) || among(list, 0, x)) by {
                lemma_without_name(before.mounted, name, x);
                if among(list, n, x) {
                    let i = choose|i: int| 0 <= i < n && i < list.len() && #[trigger] list[i] == x;
                    if i < n - 1 {
                        assert(among(list, n - 1, x));
                    }
                }
                if among(list, n - 1, x) {
                    let i = choose|i: int| 0 <= i < n - 1 && i < list.len() && #[trigger] list[i]
                        == x;
                    assert(among(list, n, x));
                }
                if x == name {
                    assert(list[n - 1] == x);
                    assert(among(list, n, x));
                }
            }
            assert forall|x: Seq<char>|
                (#[trigger] now.library.contains(x) <==> inventory.library.contains(x) || among(
                    list,
                    n,
                    x,
                )) by {
                lemma_pushed(before.library, name, x);
                if among(list, n, x) {
                    let i = choose|i: int| 0 <= i < n && i < list.len() && #[trigger] list[i] == x;
                    if i < n - 1 {
                        assert(among(list, n - 1, x));
                    }
                }
                if among(list, n - 1, x) {
                    let i = choose|i: int| 0 <= i < n - 1 && i < list.len() && #[trigger] list[i]
                        == x;
                    assert(among(list, n, x));
                }
                if x == name {
                    assert(list[n - 1] == x);
                    assert(among(list, n, x));
                }
            }
        } else if n - 1 == count {
            // The method is stored: nothing moves.
            assert(step == DeployStep::Persist(method));
            assert(now == before);
        } else {
            // An addon is mounted again.
            let j = n - 1 - count - 1;
            let name = list[j];
            assert(step == steps[count + 1 + j]);
            assert(step matches DeployStep::Mount(s) && s@ == name);
            assert(among(list, count, name));
            assert(!among(list, j, name)) by {
                if among(list, j, name) {
                    let i = choose|i: int| 0 <= i < j && i < list.len() && #[trigger] list[i]
                        == name;
                    assert(list[i] == list[j]);
                }
            }
            assert(before.library.contains(name));
            assert(!before.mounted.contains(name));
            assert(step_allowed(before, step));
            assert forall|x: Seq<char>|
                (#[trigger] now.mounted.contains(x) <==> (inventory.mounted.contains(x) && !among(
                    list,
                    count,
                    x,
                )) || among(list, j + 1, x)) by {
                lemma_pushed(before.mounted, name, x);
                if among(list, j + 1, x) {
                    let i = choose|i: int|
                        0 <= i < j + 1 && i < list.len() && #[trigger] list[i] == x;
                    if i < j {
                        assert(among(list, j, x));
                    }
                }
                if among(list, j, x) {
                    let i = choose|i: int| 0 <= i < j && i < list.len() && #[trigger] list[i] == x;
                    assert(among(list, j + 1, x));
                }
                if x == name {
                    assert(list[j] == x);
                    assert(among(list, j + 1, x));
                }
            }
        }
        assert forall|k: int| 0 <= k < n implies step_allowed(
            after_steps(inventory, #[trigger] steps.take(k)),
            steps[k],
        ) by {
            if k == n - 1 {
                assert(step_allowed(before, step));
            }
        }
    }
}

/// A change of the deploy method leaves every mounted addon mounted: run on
/// an inventory, every step of the redeployment is allowed, the mount
/// directory holds the same names afterwards as before, and so does its
/// listing; the library has gained at most the addons that it had lost while
/// they were mounted.
pub proof fn law_redeployment_keeps_addons_mounted(
    inventory: AddonInventoryView,
    steps: Seq<DeployStep>,
    method: DeployMethod,
)
    requires
        inventory.mounted.no_duplicates(),
        is_redeployment(steps, packages(inventory.mounted), method),
    ensures
        all_allowed(inventory, steps),
        forall|name: Seq<char>| #[trigger]
            after_steps(inventory, steps).mounted.contains(name) <==> inventory.mounted.contains(
                name,
            ),
        forall|name: Seq<char>| #[trigger]
            packages(after_steps(inventory, steps).mounted).contains(name) <==> packages(
                inventory.mounted,
            ).contains(name),
        forall|name: Seq<char>| #[trigger]
            after_steps(inventory, steps).library.contains(name) <==> inventory.library.contains(
                name,
            ) || packages(inventory.mounted).contains(name),
{
    let list = packages(inventory.mounted);
    let count: int = list.len() as int;
    let after = after_steps(inventory, steps);
    lemma_redeployment_so_far(inventory, steps, method, steps.len() as int);
    assert(steps.take(steps.len() as int) =~= steps);
    assert forall|name: Seq<char>| among(list, count, name) <==> list.contains(name) by {
        if among(list, count, name) {
            let i = choose|i: int| 0 <= i < count && i < list.len() && #[trigger] list[i] == name;
            assert(list.contains(name));
        }
        if list.contains(name) {
            let i = choose|i: int| 0 <= i < list.len() && list[i] == name;
            assert(among(list, count, name));
        }
    }
    assert forall|name: Seq<char>| #[trigger]
        after.mounted.contains(name) <==> inventory.mounted.contains(name) by {
        lemma_packages(inventory.mounted, name);
    }
    assert forall|name: Seq<char>| #[trigger]
        packages(after.mounted).contains(name) <==> packages(inventory.mounted).contains(name) by {
        lemma_packages(inventory.mounted, name);
        lemma_packages(after.mounted, name);
    }
    assert forall|name: Seq<char>| #[trigger]
        after.library.contains(name) <==> inventory.library.contains(name) || packages(
            inventory.mounted,
        ).contains(name) by {
    }
}

} // verus!
