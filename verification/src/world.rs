//! A model of the two trees and of a run in which every task succeeds, and
//! what such a run comes to. The two-way reconciliation makes the two trees
//! hold the same entries, and a run on trees that do changes nothing. The
//! one-way upload, under the presence method and under the checksum method,
//! uploads nothing that the remote folder holds already.

use crate::entry::{first_file, lemma_first_file, EntryView, FolderView};
use crate::folder::upload::{Command as UploadCommand, CompareMethod};
use crate::classify::{
    absent_from, in_both, lemma_classes_no_duplicates, lemma_classes_partition,
    lemma_filter_membership, only_in, present_in,
};
use crate::folder::sync::{
    lemma_converged_level_changes_nothing, lemma_names_with_last, local_entry, local_keys,
    local_names, remote_entry, remote_keys, remote_names, Command, LocalEntryView,
};
use crate::listing::{known, lemma_collect_distinct, lemma_position_distinct, position};
use crate::path::{file_name, is_plain_name, joined, lemma_join_then_name};
use crate::task::{StepView, TaskView, UploadView};
use vstd::prelude::*;

verus! {

/// An entry of the remote tree, with all it holds.
pub enum RemoteNode {
    File { file_id: u64, name: Seq<char> },
    Folder { folder_id: u64, name: Seq<char>, children: Seq<RemoteNode> },
}

/// An entry of the local tree, with all it holds.
pub enum LocalNode {
    File { path: Seq<char> },
    Dir { path: Seq<char>, children: Seq<LocalNode> },
}

impl RemoteNode {
    /// The entry as a listing of its folder shows it.
    pub open spec fn entry(self) -> EntryView {
        match self {
            RemoteNode::File { file_id, name } => EntryView::File { file_id, name },
            RemoteNode::Folder { folder_id, name, .. } => EntryView::Folder { folder_id, name },
        }
    }

    /// The name of the entry.
    pub open spec fn name(self) -> Seq<char> {
        self.entry().name()
    }
}

impl LocalNode {
    /// The entry as a listing of its directory shows it.
    pub open spec fn entry(self) -> LocalEntryView {
        match self {
            LocalNode::File { path } => LocalEntryView::File(path),
            LocalNode::Dir { path, .. } => LocalEntryView::Folder(path),
        }
    }

    /// The name of the entry, if its path has one.
    pub open spec fn name(self) -> Option<Seq<char>> {
        self.entry().name()
    }
}

/// The listing of a remote folder that holds `nodes`.
pub open spec fn remote_listing(nodes: Seq<RemoteNode>) -> Seq<EntryView> {
    nodes.map_values(|node: RemoteNode| node.entry())
}

/// The listing of a local directory that holds `nodes`.
pub open spec fn local_listing(nodes: Seq<LocalNode>) -> Seq<LocalEntryView> {
    nodes.map_values(|node: LocalNode| node.entry())
}

/// The names of the entries of a remote folder, in order.
pub open spec fn names_of_remote(nodes: Seq<RemoteNode>) -> Seq<Seq<char>> {
    known(remote_names(remote_listing(nodes)))
}

/// The names of the entries of a local directory, in order.
pub open spec fn names_of_local(nodes: Seq<LocalNode>) -> Seq<Seq<char>> {
    known(local_names(local_listing(nodes)))
}

/// What a remote folder and a local directory hold, and the changes made to
/// either tree so far, in their order: each as the task that made it, an
/// upload that followed a comparison of checksums as the upload.
pub struct World {
    pub remote: Seq<RemoteNode>,
    pub local: Seq<LocalNode>,
    pub log: Seq<TaskView>,
}

/// The rules of a run: the steps planned for a level, from the listing of
/// the remote folder, its identifier, the listing of the local directory
/// and its path; and whether the checksum of a remote file, by its
/// identifier, equals that of a local file, by its path.
pub struct Rules {
    pub plan: spec_fn(Seq<EntryView>, u64, Seq<LocalEntryView>, Seq<char>) -> Seq<StepView>,
    pub same: spec_fn(u64, Seq<char>) -> bool,
}

/// The rules of the two-way reconciliation, which compares no checksums.
pub open spec fn two_way(command: Command) -> Rules {
    Rules {
        plan: |
            listing: Seq<EntryView>,
            folder_id: u64,
            entries: Seq<LocalEntryView>,
            path: Seq<char>,
        | command.folder_steps(listing, folder_id, entries, path),
        same: |file_id: u64, path: Seq<char>| true,
    }
}

/// The world after the upload of a local file with success: a remote file
/// of its name is there, and the local file is gone if the upload carries
/// its removal.
pub open spec fn uploaded(ids: spec_fn(Seq<char>) -> u64, upload: UploadView, w: World) -> World {
    let sent = if position(names_of_remote(w.remote), upload.name) is None {
        World {
            remote: w.remote.push(
                RemoteNode::File { file_id: ids(upload.path), name: upload.name },
            ),
            log: w.log.push(TaskView::Upload(upload)),
            ..w
        }
    } else {
        World { log: w.log.push(TaskView::Upload(upload)), ..w }
    };
    if upload.remove_after {
        World {
            local: sent.local.filter(
                |node: LocalNode| node.entry() != LocalEntryView::File(upload.path),
            ),
            log: sent.log.push(TaskView::RemoveLocalFile { path: upload.path, lenient: true }),
            ..sent
        }
    } else {
        sent
    }
}

/// The world after the reconciliation of the remote folder `folder_id`,
/// which holds `w.remote`, with the local directory `path`, which holds
/// `w.local`: the steps that the rules plan for this level are run in turn.
/// At most `fuel` levels are descended into. `ids` gives the identifier
/// that the store assigns to what is created for a local path.
pub open spec fn run_level(
    rules: Rules,
    ids: spec_fn(Seq<char>) -> u64,
    fuel: nat,
    folder_id: u64,
    path: Seq<char>,
    w: World,
) -> World
    decreases fuel, 2nat, 0nat,
{
    run_steps(
        rules,
        ids,
        fuel,
        (rules.plan)(remote_listing(w.remote), folder_id, local_listing(w.local), path),
        w,
    )
}

/// The world after the steps were run in turn.
pub open spec fn run_steps(
    rules: Rules,
    ids: spec_fn(Seq<char>) -> u64,
    fuel: nat,
    steps: Seq<StepView>,
    w: World,
) -> World
    decreases fuel, 1nat, steps.len(),
{
    if steps.len() == 0 {
        w
    } else {
        run_steps(
            rules,
            ids,
            fuel,
            steps.skip(1),
            run_task(rules, ids, fuel, steps[0].task, w),
        )
    }
}

/// The world after the remote folder at `i` and the local directory at `j`
/// were reconciled with each other.
pub open spec fn run_pair(
    rules: Rules,
    ids: spec_fn(Seq<char>) -> u64,
    fuel: nat,
    i: int,
    j: int,
    w: World,
) -> World
    decreases fuel, 0nat, 0nat,
{
    if fuel == 0 || !(0 <= i < w.remote.len()) || !(0 <= j < w.local.len()) {
        w
    } else {
        match (w.remote[i], w.local[j]) {
            (
                RemoteNode::Folder { folder_id, name, children },
                LocalNode::Dir { path, children: local_children },
            ) => {
                let below = run_level(
                    rules,
                    ids,
                    (fuel - 1) as nat,
                    folder_id,
                    path,
                    World { remote: children, local: local_children, log: w.log },
                );
                World {
                    remote: w.remote.update(
                        i,
                        RemoteNode::Folder { folder_id, name, children: below.remote },
                    ),
                    local: w.local.update(j, LocalNode::Dir { path, children: below.local }),
                    log: below.log,
                }
            },
            _ => w,
        }
    }
}

/// The world after one task was performed with success.
///
/// A task that names a remote folder and a local directory to reconcile
/// means the entries that bear the name of the directory, provided they
/// are that folder and that directory. What a task creates is appended,
/// unless an entry of its name is there already. The comparison of the
/// checksums of a local file and a remote file stands for all that follows
/// from it: nothing if they are equal, the upload if they differ. The
/// tasks that report only read.
pub open spec fn run_task(
    rules: Rules,
    ids: spec_fn(Seq<char>) -> u64,
    fuel: nat,
    task: TaskView,
    w: World,
) -> World
    decreases fuel, 0nat, 1nat,
{
    match task {
        TaskView::Sync { folder_id, path } => match file_name(path) {
            Some(name) => match (
                position(names_of_remote(w.remote), name),
                position(names_of_local(w.local), name),
            ) {
                (Some(i), Some(j)) => if w.remote[i].entry() == (EntryView::Folder {
                    folder_id,
                    name,
                }) && w.local[j].entry() == LocalEntryView::Folder(path) {
                    run_pair(rules, ids, fuel, i, j, w)
                } else {
                    w
                },
                _ => w,
            },
            None => w,
        },
        TaskView::Download { file_id, path } => match file_name(path) {
            Some(name) => if position(names_of_local(w.local), name) is None {
                World {
                    local: w.local.push(LocalNode::File { path }),
                    log: w.log.push(task),
                    ..w
                }
            } else {
                World { log: w.log.push(task), ..w }
            },
            None => w,
        },
        TaskView::CreateLocalDir { path } => match file_name(path) {
            Some(name) => if position(names_of_local(w.local), name) is None {
                World {
                    local: w.local.push(LocalNode::Dir { path, children: Seq::empty() }),
                    log: w.log.push(task),
                    ..w
                }
            } else {
                w
            },
            None => w,
        },
        TaskView::Upload(upload) => uploaded(ids, upload, w),
        TaskView::CreateRemoteFolder { name, parent_id, path, retried } => {
            let created = if position(names_of_remote(w.remote), name) is None {
                World {
                    remote: w.remote.push(
                        RemoteNode::Folder {
                            folder_id: ids(path),
                            name,
                            children: Seq::empty(),
                        },
                    ),
                    log: w.log.push(task),
                    ..w
                }
            } else {
                w
            };
            match (
                position(names_of_remote(created.remote), name),
                position(names_of_local(created.local), name),
            ) {
                (Some(i), Some(j)) => if created.local[j].entry() == LocalEntryView::Folder(
                    path,
                ) {
                    run_pair(rules, ids, fuel, i, j, created)
                } else {
                    created
                },
                _ => created,
            }
        },
        TaskView::DeleteRemoteFile { file_id } => World {
            remote: w.remote.filter(
                |node: RemoteNode| node.entry() != (EntryView::File { file_id, name: node.name() }),
            ),
            log: w.log.push(task),
            ..w
        },
        TaskView::DeleteRemoteFolder { folder_id } => World {
            remote: w.remote.filter(
                |node: RemoteNode|
                    node.entry() != (EntryView::Folder { folder_id, name: node.name() }),
            ),
            log: w.log.push(task),
            ..w
        },
        TaskView::RemoveLocalFile { path, .. } => World {
            local: w.local.filter(|node: LocalNode| node.entry() != LocalEntryView::File(path)),
            log: w.log.push(task),
            ..w
        },
        TaskView::RemoveLocalDir { path, recursive, .. } => World {
            local: w.local.filter(
                |node: LocalNode|
                    !(node == (LocalNode::Dir { path, children: Seq::empty() }) || (recursive
                        && node.entry() == LocalEntryView::Folder(path))),
            ),
            log: w.log.push(task),
            ..w
        },
        TaskView::LocalChecksum { file_id, upload } => if (rules.same)(file_id, upload.path) {
            w
        } else {
            uploaded(ids, upload, w)
        },
        TaskView::RemoteChecksum { .. } => w,
        TaskView::Report(_) => w,
    }
}

/// Whether a remote entry and a local entry of the same name are of the
/// same kind and, if they are folders, hold the same entries.
pub open spec fn alike(remote: RemoteNode, local: LocalNode) -> bool
    decreases remote, 0nat,
{
    match (remote, local) {
        (RemoteNode::File { .. }, LocalNode::File { .. }) => true,
        (
            RemoteNode::Folder { children, .. },
            LocalNode::Dir { children: local_children, .. },
        ) => mirrored(children, local_children),
        _ => false,
    }
}

/// Whether a remote folder and a local directory hold the same entries:
/// the same names, each once, and under each name two entries that are
/// alike.
pub open spec fn mirrored(remote: Seq<RemoteNode>, local: Seq<LocalNode>) -> bool
    decreases remote, 1nat,
{
    &&& remote.len() <= usize::MAX
    &&& local.len() <= usize::MAX
    &&& names_of_remote(remote).no_duplicates()
    &&& names_of_local(local).no_duplicates()
    &&& forall|j: int| 0 <= j < local.len() ==> (#[trigger] local[j]).name() is Some
    &&& names_of_remote(remote).to_set() == names_of_local(local).to_set()
    &&& forall|i: int, j: int|
        #![trigger remote[i], local[j]]
        0 <= i < remote.len() && 0 <= j < local.len() && local[j].name() == Some(remote[i].name())
            ==> alike(remote[i], local[j])
}

/// Running two plans in a row is running the first and then the second.
pub proof fn lemma_run_steps_append(
    rules: Rules,
    ids: spec_fn(Seq<char>) -> u64,
    fuel: nat,
    a: Seq<StepView>,
    b: Seq<StepView>,
    w: World,
)
    ensures
        run_steps(rules, ids, fuel, a + b, w) == run_steps(
            rules,
            ids,
            fuel,
            b,
            run_steps(rules, ids, fuel, a, w),
        ),
    decreases a.len(),
{
    if a.len() == 0 {
        assert(a + b =~= b);
    } else {
        assert((a + b)[0] == a[0]);
        assert((a + b).skip(1) =~= a.skip(1) + b);
        lemma_run_steps_append(
            rules,
            ids,
            fuel,
            a.skip(1),
            b,
            run_task(rules, ids, fuel, a[0].task, w),
        );
    }
}

/// Running a plan of one step is performing its task.
pub proof fn lemma_run_one_step(
    rules: Rules,
    ids: spec_fn(Seq<char>) -> u64,
    fuel: nat,
    step: StepView,
    w: World,
)
    ensures
        run_steps(rules, ids, fuel, seq![step], w) == run_task(rules, ids, fuel, step.task, w),
{
    reveal_with_fuel(run_steps, 2);
    assert(seq![step].skip(1) =~= Seq::<StepView>::empty());
}

/// In a remote folder whose entries bear distinct names, the names of the
/// listing are those of the entries in order, and an entry is found under
/// its name and under no other.
pub proof fn lemma_remote_lookup(nodes: Seq<RemoteNode>)
    requires
        nodes.len() <= usize::MAX,
        names_of_remote(nodes).no_duplicates(),
    ensures
        remote_keys(remote_listing(nodes)) == names_of_remote(nodes),
        forall|i: int|
            0 <= i < nodes.len() ==> remote_entry(
                remote_listing(nodes),
                #[trigger] names_of_remote(nodes)[i],
            ) == Some(nodes[i].entry()),
        forall|name: Seq<char>|
            !names_of_remote(nodes).contains(name) ==> (#[trigger] remote_entry(
                remote_listing(nodes),
                name,
            )) is None,
{
    let names = remote_names(remote_listing(nodes));
    lemma_collect_distinct(names);
    assert forall|i: int| 0 <= i < nodes.len() implies remote_entry(
        remote_listing(nodes),
        #[trigger] names_of_remote(nodes)[i],
    ) == Some(nodes[i].entry()) by {
        lemma_position_distinct(names_of_remote(nodes), i);
    }
}

/// In a local directory whose entries all have names, and distinct ones,
/// the names of the listing are those of the entries in order, and an
/// entry is found under its name and under no other.
pub proof fn lemma_local_lookup(nodes: Seq<LocalNode>)
    requires
        nodes.len() <= usize::MAX,
        forall|j: int| 0 <= j < nodes.len() ==> (#[trigger] nodes[j]).name() is Some,
        names_of_local(nodes).no_duplicates(),
    ensures
        local_keys(local_listing(nodes)) == names_of_local(nodes),
        forall|j: int|
            0 <= j < nodes.len() ==> local_entry(
                local_listing(nodes),
                #[trigger] names_of_local(nodes)[j],
            ) == Some(nodes[j].entry()),
        forall|name: Seq<char>|
            !names_of_local(nodes).contains(name) ==> (#[trigger] local_entry(
                local_listing(nodes),
                name,
            )) is None,
{
    let names = local_names(local_listing(nodes));
    assert forall|j: int| 0 <= j < names.len() implies (#[trigger] names[j]) is Some by {
        assert(nodes[j].name() is Some);
    }
    lemma_collect_distinct(names);
    assert forall|j: int| 0 <= j < nodes.len() implies local_entry(
        local_listing(nodes),
        #[trigger] names_of_local(nodes)[j],
    ) == Some(nodes[j].entry()) by {
        lemma_position_distinct(names_of_local(nodes), j);
    }
}

/// On a folder and a directory that hold the same entries, the common
/// phase changes nothing, however deep it descends.
pub proof fn lemma_common_phase_on_mirrored(
    command: Command,
    ids: spec_fn(Seq<char>) -> u64,
    fuel: nat,
    names: Seq<Seq<char>>,
    w: World,
)
    requires
        mirrored(w.remote, w.local),
    ensures
        run_steps(
            two_way(command),
            ids,
            fuel,
            Command::common_steps(names, remote_listing(w.remote), local_listing(w.local)),
            w,
        ) == w,
    decreases fuel, 0nat, names.len(),
{
    let listing = remote_listing(w.remote);
    let entries = local_listing(w.local);
    if names.len() > 0 {
        let init = names.drop_last();
        let name = names.last();
        lemma_common_phase_on_mirrored(command, ids, fuel, init, w);
        let last = Command::common_entry_steps(
            remote_entry(listing, name),
            local_entry(entries, name),
        );
        lemma_run_steps_append(
            two_way(command),
            ids,
            fuel,
            Command::common_steps(init, listing, entries),
            last,
            w,
        );
        lemma_remote_lookup(w.remote);
        lemma_local_lookup(w.local);
        let remote_names = names_of_remote(w.remote);
        let local_names = names_of_local(w.local);
        if remote_names.contains(name) && local_names.contains(name) {
            let i = choose|i: int| 0 <= i < remote_names.len() && remote_names[i] == name;
            let j = choose|j: int| 0 <= j < local_names.len() && local_names[j] == name;
            lemma_position_distinct(remote_names, i);
            lemma_position_distinct(local_names, j);
            assert(0 <= i < w.remote.len() && 0 <= j < w.local.len());
            assert(w.remote[i].name() == remote_names[i]);
            assert(w.local[j].name() is Some);
            assert(w.local[j].name()->0 == local_names[j]);
            assert(w.local[j].name() == Some(w.remote[i].name()));
            assert(alike(w.remote[i], w.local[j]));
            match (w.remote[i], w.local[j]) {
                (
                    RemoteNode::Folder { folder_id, name: n, children },
                    LocalNode::Dir { path, children: local_children },
                ) => {
                    let step = last[0];
                    assert(last =~= seq![step]);
                    lemma_run_one_step(two_way(command), ids, fuel, step, w);
                    if fuel > 0 {
                        let below = World {
                            remote: children,
                            local: local_children,
                            log: w.log,
                        };
                        lemma_mirrored_run_changes_nothing(
                            command,
                            ids,
                            (fuel - 1) as nat,
                            folder_id,
                            path,
                            below,
                        );
                        assert(w.remote.update(i, w.remote[i]) =~= w.remote);
                        assert(w.local.update(j, w.local[j]) =~= w.local);
                    }
                    assert(run_pair(two_way(command), ids, fuel, i, j, w) == w);
                },
                _ => {
                    assert(last =~= Seq::<StepView>::empty());
                },
            }
        } else {
            assert(last =~= Seq::<StepView>::empty());
        }
    }
}

/// A run on a folder and a directory that hold the same entries changes
/// nothing on either side, at any level.
pub proof fn lemma_mirrored_run_changes_nothing(
    command: Command,
    ids: spec_fn(Seq<char>) -> u64,
    fuel: nat,
    folder_id: u64,
    path: Seq<char>,
    w: World,
)
    requires
        mirrored(w.remote, w.local),
    ensures
        run_level(two_way(command), ids, fuel, folder_id, path, w) == w,
    decreases fuel, 1nat, 0nat,
{
    let listing = remote_listing(w.remote);
    let entries = local_listing(w.local);
    lemma_remote_lookup(w.remote);
    lemma_local_lookup(w.local);
    lemma_converged_level_changes_nothing(command, listing, folder_id, entries, path);
    lemma_common_phase_on_mirrored(command, ids, fuel, remote_keys(listing), w);
}

/// Whether a remote folder can be brought into a local directory: its
/// entries bear distinct names that are fit to name local entries, and so at
/// every level, of which there are at most `depth`.
pub open spec fn remote_fits(nodes: Seq<RemoteNode>, depth: nat) -> bool
    decreases depth,
{
    &&& nodes.len() <= usize::MAX
    &&& names_of_remote(nodes).no_duplicates()
    &&& forall|i: int| 0 <= i < nodes.len() ==> is_plain_name((#[trigger] nodes[i]).name())
    &&& forall|i: int|
        0 <= i < nodes.len() && (#[trigger] nodes[i]) is Folder ==> depth > 0 && remote_fits(
            nodes[i]->children,
            (depth - 1) as nat,
        )
}

/// Whether a local directory can be brought into a remote folder: its
/// entries all have names, and distinct ones, and so at every level, of
/// which there are at most `depth`.
pub open spec fn local_fits(nodes: Seq<LocalNode>, depth: nat) -> bool
    decreases depth,
{
    &&& nodes.len() <= usize::MAX
    &&& names_of_local(nodes).no_duplicates()
    &&& forall|j: int| 0 <= j < nodes.len() ==> (#[trigger] nodes[j]).name() is Some
    &&& forall|j: int|
        0 <= j < nodes.len() && (#[trigger] nodes[j]) is Dir ==> depth > 0 && local_fits(
            nodes[j]->Dir_children,
            (depth - 1) as nat,
        )
}

/// Whether a remote folder and a local directory are free of conflicts: no
/// name is a file on one side and a folder on the other, at any level, and
/// the entries of both together can still be listed.
pub open spec fn agree(remote: Seq<RemoteNode>, local: Seq<LocalNode>, depth: nat) -> bool
    decreases depth,
{
    &&& remote.len() + local.len() <= usize::MAX
    &&& forall|i: int, j: int|
        #![trigger remote[i], local[j]]
        0 <= i < remote.len() && 0 <= j < local.len() && local[j].name() == Some(remote[i].name())
            ==> match (remote[i], local[j]) {
            (RemoteNode::File { .. }, LocalNode::File { .. }) => true,
            (
                RemoteNode::Folder { children, .. },
                LocalNode::Dir { children: local_children, .. },
            ) => depth > 0 && agree(children, local_children, (depth - 1) as nat),
            _ => false,
        }
}

/// What holds while the steps of one level are run, where `r0` and `l0` are
/// what the two sides held at first, `done` are the names dealt with so
/// far, and `ups` and `downs` count the entries created on either side:
/// the entries that were there at first are still listed as they were; the
/// names on each side are distinct and are those that it had at first and
/// those of the other side that were dealt with; under a name dealt with,
/// the two sides hold entries that are alike; and what bears a name not
/// dealt with is as it was.
pub open spec fn settled(
    w: World,
    r0: Seq<RemoteNode>,
    l0: Seq<LocalNode>,
    done: Set<Seq<char>>,
    ups: nat,
    downs: nat,
) -> bool {
    &&& w.remote.len() == r0.len() + ups
    &&& w.local.len() == l0.len() + downs
    &&& forall|i: int| 0 <= i < r0.len() ==> (#[trigger] w.remote[i]).entry() == r0[i].entry()
    &&& forall|j: int| 0 <= j < l0.len() ==> (#[trigger] w.local[j]).entry() == l0[j].entry()
    &&& names_of_remote(w.remote).no_duplicates()
    &&& names_of_local(w.local).no_duplicates()
    &&& forall|j: int| 0 <= j < w.local.len() ==> (#[trigger] w.local[j]).name() is Some
    &&& names_of_remote(w.remote).to_set() == names_of_remote(r0).to_set().union(
        done.intersect(names_of_local(l0).to_set()),
    )
    &&& names_of_local(w.local).to_set() == names_of_local(l0).to_set().union(
        done.intersect(names_of_remote(r0).to_set()),
    )
    &&& forall|i: int, j: int|
        #![trigger w.remote[i], w.local[j]]
        0 <= i < w.remote.len() && 0 <= j < w.local.len() && w.local[j].name() == Some(
            w.remote[i].name(),
        ) && done.contains(w.remote[i].name()) ==> alike(w.remote[i], w.local[j])
    &&& forall|i: int|
        0 <= i < r0.len() && !done.contains(r0[i].name()) ==> (#[trigger] w.remote[i]) == r0[i]
    &&& forall|j: int|
        0 <= j < l0.len() && !done.contains(l0[j].name()->0) ==> (#[trigger] w.local[j]) == l0[j]
}

/// At first nothing is dealt with.
pub proof fn lemma_settled_at_first(w: World, depth: nat)
    requires
        remote_fits(w.remote, depth),
        local_fits(w.local, depth),
    ensures
        settled(w, w.remote, w.local, Set::empty(), 0, 0),
{
    assert(names_of_remote(w.remote).to_set().union(
        Set::<Seq<char>>::empty().intersect(names_of_local(w.local).to_set()),
    ) =~= names_of_remote(w.remote).to_set());
    assert(names_of_local(w.local).to_set().union(
        Set::<Seq<char>>::empty().intersect(names_of_remote(w.remote).to_set()),
    ) =~= names_of_local(w.local).to_set());
}

/// Once every name of either side is dealt with, the two sides hold the
/// same entries.
pub proof fn lemma_settled_at_last(
    w: World,
    r0: Seq<RemoteNode>,
    l0: Seq<LocalNode>,
    done: Set<Seq<char>>,
    ups: nat,
    downs: nat,
)
    requires
        settled(w, r0, l0, done, ups, downs),
        names_of_remote(r0).to_set().subset_of(done),
        names_of_local(l0).to_set().subset_of(done),
        r0.len() + ups <= usize::MAX,
        l0.len() + downs <= usize::MAX,
    ensures
        mirrored(w.remote, w.local),
{
    let rn = names_of_remote(r0).to_set();
    let ln = names_of_local(l0).to_set();
    assert(rn.union(done.intersect(ln)) =~= rn.union(ln));
    assert(ln.union(done.intersect(rn)) =~= rn.union(ln));
    assert forall|i: int, j: int|
        #![trigger w.remote[i], w.local[j]]
        0 <= i < w.remote.len() && 0 <= j < w.local.len() && w.local[j].name() == Some(
            w.remote[i].name(),
        ) implies alike(w.remote[i], w.local[j]) by {
        let name = w.remote[i].name();
        assert(names_of_remote(w.remote)[i] == name);
        assert(names_of_remote(w.remote).contains(name));
        assert(names_of_remote(w.remote).to_set().contains(name));
        assert(rn.union(ln).contains(name));
        assert(done.contains(name));
    }
}

/// The names after an entry was appended are the names before and its name.
pub proof fn lemma_names_after_push(names: Seq<Seq<char>>, name: Seq<char>)
    requires
        names.no_duplicates(),
        !names.contains(name),
    ensures
        names.push(name).no_duplicates(),
        names.push(name).to_set() == names.to_set().insert(name),
{
    let after = names.push(name);
    assert forall|a: int, b: int|
        0 <= a < after.len() && 0 <= b < after.len() && a != b implies after[a] != after[b] by {
        if a < names.len() {
            assert(names.contains(after[a]));
        }
        if b < names.len() {
            assert(names.contains(after[b]));
        }
    }
    assert forall|n: Seq<char>| after.to_set().contains(n) <==> names.to_set().insert(
        name,
    ).contains(n) by {
        if after.contains(n) {
            let k = choose|k: int| 0 <= k < after.len() && after[k] == n;
            if k < names.len() {
                assert(names[k] == n);
            }
        }
        if names.contains(n) {
            let k = choose|k: int| 0 <= k < names.len() && names[k] == n;
            assert(after[k] == n);
        }
        assert(after[names.len() as int] == name);
    }
    assert(after.to_set() =~= names.to_set().insert(name));
}

/// A name found on a side that was not dealt with stands where it stood at
/// first on the remote side.
pub proof fn lemma_undone_remote_index(
    w: World,
    r0: Seq<RemoteNode>,
    l0: Seq<LocalNode>,
    done: Set<Seq<char>>,
    ups: nat,
    downs: nat,
    i: int,
)
    requires
        settled(w, r0, l0, done, ups, downs),
        0 <= i < w.remote.len(),
        !done.contains(w.remote[i].name()),
    ensures
        i < r0.len(),
        w.remote[i] == r0[i],
{
    let name = w.remote[i].name();
    assert(names_of_remote(w.remote)[i] == name);
    assert(names_of_remote(w.remote).to_set().contains(name));
    assert(names_of_remote(r0).to_set().contains(name));
    let k = choose|k: int| 0 <= k < names_of_remote(r0).len() && names_of_remote(r0)[k] == name;
    assert(w.remote[k].entry() == r0[k].entry());
    assert(names_of_remote(w.remote)[k] == name);
}

/// A name found on the local side that was not dealt with stands where it
/// stood at first.
pub proof fn lemma_undone_local_index(
    w: World,
    r0: Seq<RemoteNode>,
    l0: Seq<LocalNode>,
    done: Set<Seq<char>>,
    ups: nat,
    downs: nat,
    j: int,
)
    requires
        settled(w, r0, l0, done, ups, downs),
        forall|k: int| 0 <= k < l0.len() ==> (#[trigger] l0[k]).name() is Some,
        0 <= j < w.local.len(),
        !done.contains(w.local[j].name()->0),
    ensures
        j < l0.len(),
        w.local[j] == l0[j],
{
    let name = w.local[j].name()->0;
    assert(names_of_local(w.local)[j] == name);
    assert(names_of_local(w.local).to_set().contains(name));
    assert(names_of_local(l0).to_set().contains(name));
    let k = choose|k: int| 0 <= k < names_of_local(l0).len() && names_of_local(l0)[k] == name;
    assert(w.local[k].entry() == l0[k].entry());
    assert(names_of_local(w.local)[k] == name);
    assert(l0[k].name() is Some);
}

/// A name of the remote side is dealt with by appending an entry of that
/// name to the local side that is alike the remote entry, which may change
/// in what it holds.
pub proof fn lemma_settle_downloaded(
    w: World,
    r0: Seq<RemoteNode>,
    l0: Seq<LocalNode>,
    done: Set<Seq<char>>,
    ups: nat,
    downs: nat,
    i: int,
    remote_node: RemoteNode,
    local_node: LocalNode,
    log: Seq<TaskView>,
)
    requires
        settled(w, r0, l0, done, ups, downs),
        0 <= i < w.remote.len(),
        !done.contains(w.remote[i].name()),
        !names_of_local(w.local).contains(w.remote[i].name()),
        remote_node.entry() == w.remote[i].entry(),
        local_node.name() == Some(w.remote[i].name()),
        alike(remote_node, local_node),
    ensures
        settled(
            World {
                remote: w.remote.update(i, remote_node),
                local: w.local.push(local_node),
                log,
            },
            r0,
            l0,
            done.insert(w.remote[i].name()),
            ups,
            (downs + 1) as nat,
        ),
{
    let name = w.remote[i].name();
    let after = World {
        remote: w.remote.update(i, remote_node),
        local: w.local.push(local_node),
        log,
    };
    let done_after = done.insert(name);
    let rn = names_of_remote(r0).to_set();
    let ln = names_of_local(l0).to_set();
    lemma_undone_remote_index(w, r0, l0, done, ups, downs, i);
    assert(names_of_remote(after.remote) =~= names_of_remote(w.remote));
    assert(names_of_local(after.local) =~= names_of_local(w.local).push(name));
    lemma_names_after_push(names_of_local(w.local), name);
    assert(rn.contains(name)) by {
        assert(names_of_remote(r0)[i] == name);
    }
    assert(!ln.contains(name)) by {
        if ln.contains(name) {
            assert(names_of_local(w.local).to_set().contains(name));
        }
    }
    assert(rn.union(done_after.intersect(ln)) =~= rn.union(done.intersect(ln)));
    assert(ln.union(done_after.intersect(rn)) =~= ln.union(done.intersect(rn)).insert(name));
    assert forall|a: int, b: int|
        #![trigger after.remote[a], after.local[b]]
        0 <= a < after.remote.len() && 0 <= b < after.local.len() && after.local[b].name() == Some(
            after.remote[a].name(),
        ) && done_after.contains(after.remote[a].name()) implies alike(
        after.remote[a],
        after.local[b],
    ) by {
        assert(names_of_remote(w.remote)[a] == after.remote[a].name());
        if b == w.local.len() {
            assert(names_of_remote(w.remote)[i] == name);
            assert(a == i);
        } else {
            assert(names_of_local(w.local)[b] == w.local[b].name()->0);
            assert(names_of_local(w.local).contains(w.local[b].name()->0));
            assert(a != i);
            assert(alike(w.remote[a], w.local[b]));
        }
    }
    assert forall|k: int| 0 <= k < r0.len() && !done_after.contains(r0[k].name()) implies (
    #[trigger] after.remote[k]) == r0[k] by {
        assert(w.remote[k].entry() == r0[k].entry());
        assert(k != i);
        assert(w.remote[k] == r0[k]);
    }
    assert forall|k: int| 0 <= k < l0.len() && !done_after.contains(l0[k].name()->0) implies (
    #[trigger] after.local[k]) == l0[k] by {
        assert(w.local[k] == l0[k]);
    }
    assert forall|k: int| 0 <= k < r0.len() implies (#[trigger] after.remote[k]).entry()
        == r0[k].entry() by {
        assert(w.remote[k].entry() == r0[k].entry());
    }
    assert forall|k: int| 0 <= k < l0.len() implies (#[trigger] after.local[k]).entry()
        == l0[k].entry() by {
        assert(w.local[k].entry() == l0[k].entry());
    }
    assert forall|k: int| 0 <= k < after.local.len() implies (#[trigger] after.local[k]).name()
        is Some by {
        if k < w.local.len() {
            assert(w.local[k].name() is Some);
        }
    }
}

/// A name of the local side is dealt with by appending an entry of that
/// name to the remote side that is alike the local entry, which may change
/// in what it holds.
pub proof fn lemma_settle_uploaded(
    w: World,
    r0: Seq<RemoteNode>,
    l0: Seq<LocalNode>,
    done: Set<Seq<char>>,
    ups: nat,
    downs: nat,
    j: int,
    remote_node: RemoteNode,
    local_node: LocalNode,
    log: Seq<TaskView>,
)
    requires
        settled(w, r0, l0, done, ups, downs),
        forall|k: int| 0 <= k < l0.len() ==> (#[trigger] l0[k]).name() is Some,
        0 <= j < w.local.len(),
        !done.contains(w.local[j].name()->0),
        !names_of_remote(w.remote).contains(w.local[j].name()->0),
        local_node.entry() == w.local[j].entry(),
        remote_node.name() == w.local[j].name()->0,
        alike(remote_node, local_node),
    ensures
        settled(
            World {
                remote: w.remote.push(remote_node),
                local: w.local.update(j, local_node),
                log,
            },
            r0,
            l0,
            done.insert(w.local[j].name()->0),
            (ups + 1) as nat,
            downs,
        ),
{
    let name = w.local[j].name()->0;
    let after = World {
        remote: w.remote.push(remote_node),
        local: w.local.update(j, local_node),
        log,
    };
    let done_after = done.insert(name);
    let rn = names_of_remote(r0).to_set();
    let ln = names_of_local(l0).to_set();
    lemma_undone_local_index(w, r0, l0, done, ups, downs, j);
    assert(w.local[j].name() is Some);
    assert(names_of_local(after.local) =~= names_of_local(w.local));
    assert(names_of_remote(after.remote) =~= names_of_remote(w.remote).push(name));
    lemma_names_after_push(names_of_remote(w.remote), name);
    assert(ln.contains(name)) by {
        assert(names_of_local(l0)[j] == name);
    }
    assert(!rn.contains(name)) by {
        if rn.contains(name) {
            assert(names_of_remote(w.remote).to_set().contains(name));
        }
    }
    assert(ln.union(done_after.intersect(rn)) =~= ln.union(done.intersect(rn)));
    assert(rn.union(done_after.intersect(ln)) =~= rn.union(done.intersect(ln)).insert(name));
    assert forall|a: int, b: int|
        #![trigger after.remote[a], after.local[b]]
        0 <= a < after.remote.len() && 0 <= b < after.local.len() && after.local[b].name() == Some(
            after.remote[a].name(),
        ) && done_after.contains(after.remote[a].name()) implies alike(
        after.remote[a],
        after.local[b],
    ) by {
        assert(w.local[b].name() is Some);
        assert(names_of_local(w.local)[b] == after.local[b].name()->0);
        if a == w.remote.len() {
            assert(names_of_local(w.local)[j] == name);
            assert(b == j);
        } else {
            assert(names_of_remote(w.remote)[a] == w.remote[a].name());
            assert(names_of_remote(w.remote).contains(w.remote[a].name()));
            assert(b != j);
            assert(alike(w.remote[a], w.local[b]));
        }
    }
    assert forall|k: int| 0 <= k < l0.len() && !done_after.contains(l0[k].name()->0) implies (
    #[trigger] after.local[k]) == l0[k] by {
        assert(w.local[k].entry() == l0[k].entry());
        assert(k != j);
        assert(w.local[k] == l0[k]);
    }
    assert forall|k: int| 0 <= k < r0.len() && !done_after.contains(r0[k].name()) implies (
    #[trigger] after.remote[k]) == r0[k] by {
        assert(w.remote[k] == r0[k]);
    }
    assert forall|k: int| 0 <= k < r0.len() implies (#[trigger] after.remote[k]).entry()
        == r0[k].entry() by {
        assert(w.remote[k].entry() == r0[k].entry());
    }
    assert forall|k: int| 0 <= k < l0.len() implies (#[trigger] after.local[k]).entry()
        == l0[k].entry() by {
        assert(w.local[k].entry() == l0[k].entry());
    }
    assert forall|k: int| 0 <= k < after.local.len() implies (#[trigger] after.local[k]).name()
        is Some by {
        assert(w.local[k].name() is Some);
    }
}

/// A name of both sides is dealt with once its two entries are alike; they
/// may change in what they hold.
pub proof fn lemma_settle_common(
    w: World,
    r0: Seq<RemoteNode>,
    l0: Seq<LocalNode>,
    done: Set<Seq<char>>,
    ups: nat,
    downs: nat,
    i: int,
    j: int,
    remote_node: RemoteNode,
    local_node: LocalNode,
    log: Seq<TaskView>,
)
    requires
        settled(w, r0, l0, done, ups, downs),
        forall|k: int| 0 <= k < l0.len() ==> (#[trigger] l0[k]).name() is Some,
        0 <= i < w.remote.len(),
        0 <= j < w.local.len(),
        w.local[j].name() == Some(w.remote[i].name()),
        !done.contains(w.remote[i].name()),
        remote_node.entry() == w.remote[i].entry(),
        local_node.entry() == w.local[j].entry(),
        alike(remote_node, local_node),
    ensures
        settled(
            World {
                remote: w.remote.update(i, remote_node),
                local: w.local.update(j, local_node),
                log,
            },
            r0,
            l0,
            done.insert(w.remote[i].name()),
            ups,
            downs,
        ),
{
    let name = w.remote[i].name();
    let after = World {
        remote: w.remote.update(i, remote_node),
        local: w.local.update(j, local_node),
        log,
    };
    let done_after = done.insert(name);
    let rn = names_of_remote(r0).to_set();
    let ln = names_of_local(l0).to_set();
    lemma_undone_remote_index(w, r0, l0, done, ups, downs, i);
    lemma_undone_local_index(w, r0, l0, done, ups, downs, j);
    assert(names_of_local(after.local) =~= names_of_local(w.local));
    assert(names_of_remote(after.remote) =~= names_of_remote(w.remote));
    assert(rn.contains(name)) by {
        assert(names_of_remote(r0)[i] == name);
    }
    assert(ln.contains(name)) by {
        assert(names_of_local(l0)[j] == name);
    }
    assert(ln.union(done_after.intersect(rn)) =~= ln.union(done.intersect(rn)));
    assert(rn.union(done_after.intersect(ln)) =~= rn.union(done.intersect(ln)));
    assert forall|a: int, b: int|
        #![trigger after.remote[a], after.local[b]]
        0 <= a < after.remote.len() && 0 <= b < after.local.len() && after.local[b].name() == Some(
            after.remote[a].name(),
        ) && done_after.contains(after.remote[a].name()) implies alike(
        after.remote[a],
        after.local[b],
    ) by {
        assert(w.local[b].name() is Some);
        assert(names_of_local(w.local)[b] == after.local[b].name()->0);
        assert(names_of_remote(w.remote)[a] == after.remote[a].name());
        assert(names_of_local(w.local)[j] == name);
        assert(names_of_remote(w.remote)[i] == name);
        if a == i {
            assert(b == j);
        } else {
            assert(b != j);
            assert(alike(w.remote[a], w.local[b]));
        }
    }
    assert forall|k: int| 0 <= k < l0.len() && !done_after.contains(l0[k].name()->0) implies (
    #[trigger] after.local[k]) == l0[k] by {
        assert(w.local[k].entry() == l0[k].entry());
        assert(k != j);
        assert(w.local[k] == l0[k]);
    }
    assert forall|k: int| 0 <= k < r0.len() && !done_after.contains(r0[k].name()) implies (
    #[trigger] after.remote[k]) == r0[k] by {
        assert(w.remote[k].entry() == r0[k].entry());
        assert(k != i);
        assert(w.remote[k] == r0[k]);
    }
    assert forall|k: int| 0 <= k < r0.len() implies (#[trigger] after.remote[k]).entry()
        == r0[k].entry() by {
        assert(w.remote[k].entry() == r0[k].entry());
    }
    assert forall|k: int| 0 <= k < l0.len() implies (#[trigger] after.local[k]).entry()
        == l0[k].entry() by {
        assert(w.local[k].entry() == l0[k].entry());
    }
    assert forall|k: int| 0 <= k < after.local.len() implies (#[trigger] after.local[k]).name()
        is Some by {
        assert(w.local[k].name() is Some);
    }
}

/// Whether a run goes both ways and removes nothing.
pub open spec fn both_ways(command: Command) -> bool {
    &&& !command.disable_download
    &&& !command.disable_upload
    &&& !command.remove_after_download
    &&& !command.remove_after_upload
}

/// Running a plan of two steps is performing their tasks in turn.
pub proof fn lemma_run_two_steps(
    rules: Rules,
    ids: spec_fn(Seq<char>) -> u64,
    fuel: nat,
    first: StepView,
    second: StepView,
    w: World,
)
    ensures
        run_steps(rules, ids, fuel, seq![first, second], w) == run_task(
            rules,
            ids,
            fuel,
            second.task,
            run_task(rules, ids, fuel, first.task, w),
        ),
{
    reveal_with_fuel(run_steps, 3);
    assert(seq![first, second].skip(1) =~= seq![second]);
    assert(seq![second].skip(1) =~= Seq::<StepView>::empty());
}

/// The download of one name found only remotely deals with that name.
pub proof fn lemma_download_step(
    command: Command,
    ids: spec_fn(Seq<char>) -> u64,
    fuel: nat,
    path: Seq<char>,
    r0: Seq<RemoteNode>,
    l0: Seq<LocalNode>,
    w: World,
    done: Set<Seq<char>>,
    ups: nat,
    downs: nat,
    name: Seq<char>,
)
    requires
        both_ways(command),
        remote_fits(r0, fuel),
        settled(w, r0, l0, done, ups, downs),
        names_of_remote(r0).contains(name),
        !names_of_local(l0).contains(name),
        !done.contains(name),
    ensures
        settled(
            run_steps(
                two_way(command),
                ids,
                fuel,
                command.remote_entry_steps(name, remote_entry(remote_listing(r0), name), path),
                w,
            ),
            r0,
            l0,
            done.insert(name),
            ups,
            (downs + 1) as nat,
        ),
    decreases fuel, 0nat, 0nat,
{
    let i = choose|i: int| 0 <= i < names_of_remote(r0).len() && names_of_remote(r0)[i] == name;
    lemma_remote_lookup(r0);
    assert(remote_entry(remote_listing(r0), name) == Some(r0[i].entry()));
    assert(r0[i].name() == name);
    assert(w.remote[i].entry() == r0[i].entry());
    assert(w.remote[i] == r0[i]);
    assert(is_plain_name(name));
    let target = joined(path, name);
    lemma_join_then_name(path, name);
    assert(!names_of_local(w.local).contains(name)) by {
        if names_of_local(w.local).contains(name) {
            assert(names_of_local(w.local).to_set().contains(name));
            assert(names_of_local(l0).to_set().contains(name));
        }
    }
    assert(position(names_of_local(w.local), name) is None);
    let steps = command.remote_entry_steps(name, Some(r0[i].entry()), path);
    match r0[i] {
        RemoteNode::File { file_id, name: n } => {
            let step = steps[0];
            assert(steps =~= seq![step]);
            lemma_run_one_step(two_way(command), ids, fuel, step, w);
            let node = LocalNode::File { path: target };
            assert(w.remote.update(i, w.remote[i]) =~= w.remote);
            lemma_settle_downloaded(
                w,
                r0,
                l0,
                done,
                ups,
                downs,
                i,
                w.remote[i],
                node,
                w.log.push(step.task),
            );
        },
        RemoteNode::Folder { folder_id, name: n, children } => {
            let first = steps[0];
            let second = steps[1];
            assert(steps =~= seq![first, second]);
            lemma_run_two_steps(two_way(command), ids, fuel, first, second, w);
            let empty_dir = LocalNode::Dir { path: target, children: Seq::empty() };
            let w1 = World { local: w.local.push(empty_dir), log: w.log.push(first.task), ..w };
            assert(run_task(two_way(command), ids, fuel, first.task, w) == w1);
            let last = w.local.len() as int;
            assert(names_of_local(w1.local) =~= names_of_local(w.local).push(name));
            lemma_names_after_push(names_of_local(w.local), name);
            lemma_position_distinct(names_of_local(w1.local), last);
            assert(names_of_remote(w1.remote)[i] == name);
            lemma_position_distinct(names_of_remote(w1.remote), i);
            assert(fuel > 0);
            let start = World {
                remote: children,
                local: Seq::<LocalNode>::empty(),
                log: w1.log,
            };
            assert(names_of_local(start.local) =~= Seq::<Seq<char>>::empty());
            assert(remote_fits(children, (fuel - 1) as nat));
            assert(start.remote.len() + start.local.len() <= usize::MAX);
            lemma_run_converges(command, ids, (fuel - 1) as nat, folder_id, target, start);
            let below = run_level(two_way(command), ids, (fuel - 1) as nat, folder_id, target, start);
            let remote_node = RemoteNode::Folder { folder_id, name: n, children: below.remote };
            let local_node = LocalNode::Dir { path: target, children: below.local };
            let w2 = World {
                remote: w1.remote.update(i, remote_node),
                local: w1.local.update(last, local_node),
                log: below.log,
            };
            assert(run_pair(two_way(command), ids, fuel, i, last, w1) == w2);
            assert(run_task(two_way(command), ids, fuel, second.task, w1) == w2);
            assert(w1.local.update(last, local_node) =~= w.local.push(local_node));
            lemma_settle_downloaded(
                w,
                r0,
                l0,
                done,
                ups,
                downs,
                i,
                remote_node,
                local_node,
                below.log,
            );
        },
    }
}

/// The upload of one name found only locally deals with that name.
pub proof fn lemma_upload_step(
    command: Command,
    ids: spec_fn(Seq<char>) -> u64,
    fuel: nat,
    folder_id: u64,
    r0: Seq<RemoteNode>,
    l0: Seq<LocalNode>,
    w: World,
    done: Set<Seq<char>>,
    ups: nat,
    downs: nat,
    name: Seq<char>,
)
    requires
        both_ways(command),
        local_fits(l0, fuel),
        settled(w, r0, l0, done, ups, downs),
        names_of_local(l0).contains(name),
        !names_of_remote(r0).contains(name),
        !done.contains(name),
    ensures
        settled(
            run_steps(
                two_way(command),
                ids,
                fuel,
                command.local_entry_steps(name, local_entry(local_listing(l0), name), folder_id),
                w,
            ),
            r0,
            l0,
            done.insert(name),
            (ups + 1) as nat,
            downs,
        ),
    decreases fuel, 0nat, 0nat,
{
    let j = choose|j: int| 0 <= j < names_of_local(l0).len() && names_of_local(l0)[j] == name;
    lemma_local_lookup(l0);
    assert(local_entry(local_listing(l0), name) == Some(l0[j].entry()));
    assert(l0[j].name() is Some);
    assert(l0[j].name() == Some(name));
    assert(w.local[j].entry() == l0[j].entry());
    assert(w.local[j] == l0[j]);
    assert(!names_of_remote(w.remote).contains(name)) by {
        if names_of_remote(w.remote).contains(name) {
            assert(names_of_remote(w.remote).to_set().contains(name));
            assert(names_of_remote(r0).to_set().contains(name));
        }
    }
    assert(position(names_of_remote(w.remote), name) is None);
    let steps = command.local_entry_steps(name, Some(l0[j].entry()), folder_id);
    match l0[j] {
        LocalNode::File { path } => {
            let step = steps[0];
            assert(steps =~= seq![step]);
            lemma_run_one_step(two_way(command), ids, fuel, step, w);
            let node = RemoteNode::File { file_id: ids(path), name };
            assert(w.local.update(j, w.local[j]) =~= w.local);
            lemma_settle_uploaded(
                w,
                r0,
                l0,
                done,
                ups,
                downs,
                j,
                node,
                w.local[j],
                w.log.push(step.task),
            );
        },
        LocalNode::Dir { path, children } => {
            let step = steps[0];
            assert(steps =~= seq![step]);
            lemma_run_one_step(two_way(command), ids, fuel, step, w);
            let empty_folder = RemoteNode::Folder {
                folder_id: ids(path),
                name,
                children: Seq::empty(),
            };
            let created = World {
                remote: w.remote.push(empty_folder),
                log: w.log.push(step.task),
                ..w
            };
            let last = w.remote.len() as int;
            assert(names_of_remote(created.remote) =~= names_of_remote(w.remote).push(name));
            lemma_names_after_push(names_of_remote(w.remote), name);
            lemma_position_distinct(names_of_remote(created.remote), last);
            assert(names_of_local(created.local)[j] == name);
            lemma_position_distinct(names_of_local(created.local), j);
            assert(fuel > 0);
            let start = World {
                remote: Seq::<RemoteNode>::empty(),
                local: children,
                log: created.log,
            };
            assert(names_of_remote(start.remote) =~= Seq::<Seq<char>>::empty());
            assert(local_fits(children, (fuel - 1) as nat));
            assert(start.remote.len() + start.local.len() <= usize::MAX);
            lemma_run_converges(command, ids, (fuel - 1) as nat, ids(path), path, start);
            let below = run_level(two_way(command), ids, (fuel - 1) as nat, ids(path), path, start);
            let remote_node = RemoteNode::Folder {
                folder_id: ids(path),
                name,
                children: below.remote,
            };
            let local_node = LocalNode::Dir { path, children: below.local };
            let w2 = World {
                remote: created.remote.update(last, remote_node),
                local: created.local.update(j, local_node),
                log: below.log,
            };
            assert(run_pair(two_way(command), ids, fuel, last, j, created) == w2);
            assert(run_task(two_way(command), ids, fuel, step.task, w) == w2);
            assert(created.remote.update(last, remote_node) =~= w.remote.push(remote_node));
            lemma_settle_uploaded(
                w,
                r0,
                l0,
                done,
                ups,
                downs,
                j,
                remote_node,
                local_node,
                below.log,
            );
        },
    }
}

/// The reconciliation of one name found on both sides deals with that
/// name.
pub proof fn lemma_common_step(
    command: Command,
    ids: spec_fn(Seq<char>) -> u64,
    fuel: nat,
    r0: Seq<RemoteNode>,
    l0: Seq<LocalNode>,
    w: World,
    done: Set<Seq<char>>,
    ups: nat,
    downs: nat,
    name: Seq<char>,
)
    requires
        both_ways(command),
        remote_fits(r0, fuel),
        local_fits(l0, fuel),
        agree(r0, l0, fuel),
        settled(w, r0, l0, done, ups, downs),
        names_of_remote(r0).contains(name),
        names_of_local(l0).contains(name),
        !done.contains(name),
    ensures
        settled(
            run_steps(
                two_way(command),
                ids,
                fuel,
                Command::common_entry_steps(
                    remote_entry(remote_listing(r0), name),
                    local_entry(local_listing(l0), name),
                ),
                w,
            ),
            r0,
            l0,
            done.insert(name),
            ups,
            downs,
        ),
    decreases fuel, 0nat, 0nat,
{
    let i = choose|i: int| 0 <= i < names_of_remote(r0).len() && names_of_remote(r0)[i] == name;
    let j = choose|j: int| 0 <= j < names_of_local(l0).len() && names_of_local(l0)[j] == name;
    lemma_remote_lookup(r0);
    lemma_local_lookup(l0);
    assert(remote_entry(remote_listing(r0), name) == Some(r0[i].entry()));
    assert(local_entry(local_listing(l0), name) == Some(l0[j].entry()));
    assert(r0[i].name() == name);
    assert(l0[j].name() is Some);
    assert(l0[j].name() == Some(r0[i].name()));
    assert(w.remote[i].entry() == r0[i].entry());
    assert(w.local[j].entry() == l0[j].entry());
    assert(w.remote[i] == r0[i]);
    assert(w.local[j] == l0[j]);
    let steps = Command::common_entry_steps(Some(r0[i].entry()), Some(l0[j].entry()));
    match (r0[i], l0[j]) {
        (RemoteNode::File { .. }, LocalNode::File { .. }) => {
            assert(steps =~= Seq::<StepView>::empty());
            assert(w.remote.update(i, w.remote[i]) =~= w.remote);
            assert(w.local.update(j, w.local[j]) =~= w.local);
            lemma_settle_common(
                w,
                r0,
                l0,
                done,
                ups,
                downs,
                i,
                j,
                w.remote[i],
                w.local[j],
                w.log,
            );
        },
        (
            RemoteNode::Folder { folder_id, name: n, children },
            LocalNode::Dir { path, children: local_children },
        ) => {
            let step = steps[0];
            assert(steps =~= seq![step]);
            lemma_run_one_step(two_way(command), ids, fuel, step, w);
            assert(names_of_remote(w.remote)[i] == name);
            assert(names_of_local(w.local)[j] == name);
            lemma_position_distinct(names_of_remote(w.remote), i);
            lemma_position_distinct(names_of_local(w.local), j);
            assert(fuel > 0);
            let start = World { remote: children, local: local_children, log: w.log };
            assert(remote_fits(children, (fuel - 1) as nat));
            assert(local_fits(local_children, (fuel - 1) as nat));
            assert(agree(children, local_children, (fuel - 1) as nat));
            lemma_run_converges(command, ids, (fuel - 1) as nat, folder_id, path, start);
            let below = run_level(two_way(command), ids, (fuel - 1) as nat, folder_id, path, start);
            let remote_node = RemoteNode::Folder { folder_id, name: n, children: below.remote };
            let local_node = LocalNode::Dir { path, children: below.local };
            let w2 = World {
                remote: w.remote.update(i, remote_node),
                local: w.local.update(j, local_node),
                log: below.log,
            };
            assert(run_pair(two_way(command), ids, fuel, i, j, w) == w2);
            assert(run_task(two_way(command), ids, fuel, step.task, w) == w2);
            lemma_settle_common(
                w,
                r0,
                l0,
                done,
                ups,
                downs,
                i,
                j,
                remote_node,
                local_node,
                below.log,
            );
        },
        _ => {
            assert(false);
        },
    }
}

/// The download phase deals with the names it is given.
pub proof fn lemma_download_phase(
    command: Command,
    ids: spec_fn(Seq<char>) -> u64,
    fuel: nat,
    path: Seq<char>,
    r0: Seq<RemoteNode>,
    l0: Seq<LocalNode>,
    w: World,
    done: Set<Seq<char>>,
    ups: nat,
    downs: nat,
    names: Seq<Seq<char>>,
)
    requires
        both_ways(command),
        remote_fits(r0, fuel),
        settled(w, r0, l0, done, ups, downs),
        names.no_duplicates(),
        forall|k: int|
            0 <= k < names.len() ==> names_of_remote(r0).contains(#[trigger] names[k])
                && !names_of_local(l0).contains(names[k]) && !done.contains(names[k]),
    ensures
        settled(
            run_steps(
                two_way(command),
                ids,
                fuel,
                command.remote_steps(names, remote_listing(r0), path),
                w,
            ),
            r0,
            l0,
            done.union(names.to_set()),
            ups,
            downs + names.len(),
        ),
    decreases fuel, 1nat, names.len(),
{
    if names.len() == 0 {
        assert(done.union(names.to_set()) =~= done);
    } else {
        let init = names.drop_last();
        let name = names.last();
        assert forall|k: int| 0 <= k < init.len() implies names_of_remote(r0).contains(
            #[trigger] init[k],
        ) && !names_of_local(l0).contains(init[k]) && !done.contains(init[k]) by {
            assert(init[k] == names[k]);
        }
        assert forall|a: int, b: int|
            0 <= a < init.len() && 0 <= b < init.len() && a != b implies init[a] != init[b] by {
            assert(names[a] != names[b]);
        }
        lemma_download_phase(command, ids, fuel, path, r0, l0, w, done, ups, downs, init);
        let first = command.remote_steps(init, remote_listing(r0), path);
        let mid = run_steps(two_way(command), ids, fuel, first, w);
        let done_mid = done.union(init.to_set());
        assert(!done_mid.contains(name)) by {
            if init.contains(name) {
                let k = choose|k: int| 0 <= k < init.len() && init[k] == name;
                assert(names[k] == names[names.len() - 1]);
            }
            assert(names[names.len() - 1] == name);
        }
        assert(names[names.len() - 1] == name);
        lemma_download_step(
            command,
            ids,
            fuel,
            path,
            r0,
            l0,
            mid,
            done_mid,
            ups,
            downs + init.len(),
            name,
        );
        let last = command.remote_entry_steps(
            name,
            remote_entry(remote_listing(r0), name),
            path,
        );
        lemma_run_steps_append(two_way(command), ids, fuel, first, last, w);
        lemma_names_with_last(names);
        assert(done.union(names.to_set()) =~= done_mid.insert(name));
    }
}

/// The upload phase deals with the names it is given.
pub proof fn lemma_upload_phase(
    command: Command,
    ids: spec_fn(Seq<char>) -> u64,
    fuel: nat,
    folder_id: u64,
    r0: Seq<RemoteNode>,
    l0: Seq<LocalNode>,
    w: World,
    done: Set<Seq<char>>,
    ups: nat,
    downs: nat,
    names: Seq<Seq<char>>,
)
    requires
        both_ways(command),
        local_fits(l0, fuel),
        settled(w, r0, l0, done, ups, downs),
        names.no_duplicates(),
        forall|k: int|
            0 <= k < names.len() ==> names_of_local(l0).contains(#[trigger] names[k])
                && !names_of_remote(r0).contains(names[k]) && !done.contains(names[k]),
    ensures
        settled(
            run_steps(
                two_way(command),
                ids,
                fuel,
                command.local_steps(names, local_listing(l0), folder_id),
                w,
            ),
            r0,
            l0,
            done.union(names.to_set()),
            ups + names.len(),
            downs,
        ),
    decreases fuel, 1nat, names.len(),
{
    if names.len() == 0 {
        assert(done.union(names.to_set()) =~= done);
    } else {
        let init = names.drop_last();
        let name = names.last();
        assert forall|k: int| 0 <= k < init.len() implies names_of_local(l0).contains(
            #[trigger] init[k],
        ) && !names_of_remote(r0).contains(init[k]) && !done.contains(init[k]) by {
            assert(init[k] == names[k]);
        }
        assert forall|a: int, b: int|
            0 <= a < init.len() && 0 <= b < init.len() && a != b implies init[a] != init[b] by {
            assert(names[a] != names[b]);
        }
        lemma_upload_phase(command, ids, fuel, folder_id, r0, l0, w, done, ups, downs, init);
        let first = command.local_steps(init, local_listing(l0), folder_id);
        let mid = run_steps(two_way(command), ids, fuel, first, w);
        let done_mid = done.union(init.to_set());
        assert(!done_mid.contains(name)) by {
            if init.contains(name) {
                let k = choose|k: int| 0 <= k < init.len() && init[k] == name;
                assert(names[k] == names[names.len() - 1]);
            }
            assert(names[names.len() - 1] == name);
        }
        assert(names[names.len() - 1] == name);
        lemma_upload_step(
            command,
            ids,
            fuel,
            folder_id,
            r0,
            l0,
            mid,
            done_mid,
            ups + init.len(),
            downs,
            name,
        );
        let last = command.local_entry_steps(
            name,
            local_entry(local_listing(l0), name),
            folder_id,
        );
        lemma_run_steps_append(two_way(command), ids, fuel, first, last, w);
        lemma_names_with_last(names);
        assert(done.union(names.to_set()) =~= done_mid.insert(name));
    }
}

/// The common phase deals with the names it is given.
pub proof fn lemma_common_phase(
    command: Command,
    ids: spec_fn(Seq<char>) -> u64,
    fuel: nat,
    r0: Seq<RemoteNode>,
    l0: Seq<LocalNode>,
    w: World,
    done: Set<Seq<char>>,
    ups: nat,
    downs: nat,
    names: Seq<Seq<char>>,
)
    requires
        both_ways(command),
        remote_fits(r0, fuel),
        local_fits(l0, fuel),
        agree(r0, l0, fuel),
        settled(w, r0, l0, done, ups, downs),
        names.no_duplicates(),
        forall|k: int|
            0 <= k < names.len() ==> names_of_remote(r0).contains(#[trigger] names[k])
                && names_of_local(l0).contains(names[k]) && !done.contains(names[k]),
    ensures
        settled(
            run_steps(
                two_way(command),
                ids,
                fuel,
                Command::common_steps(names, remote_listing(r0), local_listing(l0)),
                w,
            ),
            r0,
            l0,
            done.union(names.to_set()),
            ups,
            downs,
        ),
    decreases fuel, 1nat, names.len(),
{
    if names.len() == 0 {
        assert(done.union(names.to_set()) =~= done);
    } else {
        let init = names.drop_last();
        let name = names.last();
        assert forall|k: int| 0 <= k < init.len() implies names_of_remote(r0).contains(
            #[trigger] init[k],
        ) && names_of_local(l0).contains(init[k]) && !done.contains(init[k]) by {
            assert(init[k] == names[k]);
        }
        assert forall|a: int, b: int|
            0 <= a < init.len() && 0 <= b < init.len() && a != b implies init[a] != init[b] by {
            assert(names[a] != names[b]);
        }
        lemma_common_phase(command, ids, fuel, r0, l0, w, done, ups, downs, init);
        let first = Command::common_steps(init, remote_listing(r0), local_listing(l0));
        let mid = run_steps(two_way(command), ids, fuel, first, w);
        let done_mid = done.union(init.to_set());
        assert(!done_mid.contains(name)) by {
            if init.contains(name) {
                let k = choose|k: int| 0 <= k < init.len() && init[k] == name;
                assert(names[k] == names[names.len() - 1]);
            }
            assert(names[names.len() - 1] == name);
        }
        assert(names[names.len() - 1] == name);
        lemma_common_step(command, ids, fuel, r0, l0, mid, done_mid, ups, downs, name);
        let last = Command::common_entry_steps(
            remote_entry(remote_listing(r0), name),
            local_entry(local_listing(l0), name),
        );
        lemma_run_steps_append(two_way(command), ids, fuel, first, last, w);
        lemma_names_with_last(names);
        assert(done.union(names.to_set()) =~= done_mid.insert(name));
    }
}

/// A run that goes both ways and removes nothing, on a remote folder and a
/// local directory that fit each other and are free of conflicts, leaves the
/// two holding the same entries.
pub proof fn lemma_run_converges(
    command: Command,
    ids: spec_fn(Seq<char>) -> u64,
    depth: nat,
    folder_id: u64,
    path: Seq<char>,
    w: World,
)
    requires
        both_ways(command),
        remote_fits(w.remote, depth),
        local_fits(w.local, depth),
        agree(w.remote, w.local, depth),
    ensures
        mirrored(
            run_level(two_way(command), ids, depth, folder_id, path, w).remote,
            run_level(two_way(command), ids, depth, folder_id, path, w).local,
        ),
    decreases depth, 2nat, 0nat,
{
    let r0 = w.remote;
    let l0 = w.local;
    let listing = remote_listing(r0);
    let entries = local_listing(l0);
    let rn = names_of_remote(r0);
    let ln = names_of_local(l0);
    lemma_remote_lookup(r0);
    lemma_local_lookup(l0);
    let down_names = only_in(rn, ln);
    let up_names = only_in(ln, rn);
    let common_names = in_both(rn, ln);
    lemma_classes_no_duplicates(rn, ln);
    lemma_classes_partition(rn, ln);
    assert forall|k: int| 0 <= k < down_names.len() implies rn.contains(
        #[trigger] down_names[k],
    ) && !ln.contains(down_names[k]) by {
        assert(down_names.contains(down_names[k]));
        lemma_filter_membership(rn, absent_from(ln), down_names[k]);
    }
    assert forall|k: int| 0 <= k < up_names.len() implies ln.contains(#[trigger] up_names[k])
        && !rn.contains(up_names[k]) by {
        assert(up_names.contains(up_names[k]));
        lemma_filter_membership(ln, absent_from(rn), up_names[k]);
    }
    assert forall|k: int| 0 <= k < common_names.len() implies rn.contains(
        #[trigger] common_names[k],
    ) && ln.contains(common_names[k]) by {
        assert(common_names.contains(common_names[k]));
        lemma_filter_membership(rn, present_in(ln), common_names[k]);
    }
    let down = command.remote_steps(down_names, listing, path);
    let up = command.local_steps(up_names, entries, folder_id);
    let common = Command::common_steps(common_names, listing, entries);
    assert(command.folder_steps(listing, folder_id, entries, path) == down + up + common);
    lemma_settled_at_first(w, depth);
    let none = Set::<Seq<char>>::empty();
    lemma_download_phase(command, ids, depth, path, r0, l0, w, none, 0, 0, down_names);
    let w1 = run_steps(two_way(command), ids, depth, down, w);
    let done1 = none.union(down_names.to_set());
    assert forall|k: int| 0 <= k < up_names.len() implies !done1.contains(
        #[trigger] up_names[k],
    ) by {
        if down_names.contains(up_names[k]) {
            lemma_filter_membership(rn, absent_from(ln), up_names[k]);
        }
    }
    lemma_upload_phase(
        command,
        ids,
        depth,
        folder_id,
        r0,
        l0,
        w1,
        done1,
        0,
        down_names.len(),
        up_names,
    );
    let w2 = run_steps(two_way(command), ids, depth, up, w1);
    let done2 = done1.union(up_names.to_set());
    assert forall|k: int| 0 <= k < common_names.len() implies !done2.contains(
        #[trigger] common_names[k],
    ) by {
        if down_names.contains(common_names[k]) {
            lemma_filter_membership(rn, absent_from(ln), common_names[k]);
        }
        if up_names.contains(common_names[k]) {
            lemma_filter_membership(ln, absent_from(rn), common_names[k]);
        }
    }
    lemma_common_phase(
        command,
        ids,
        depth,
        r0,
        l0,
        w2,
        done2,
        up_names.len(),
        down_names.len(),
        common_names,
    );
    let w3 = run_steps(two_way(command), ids, depth, common, w2);
    let done3 = done2.union(common_names.to_set());
    lemma_run_steps_append(two_way(command), ids, depth, down, up, w);
    lemma_run_steps_append(two_way(command), ids, depth, down + up, common, w);
    assert(run_level(two_way(command), ids, depth, folder_id, path, w) == w3);
    assert(rn.to_set().subset_of(done3)) by {
        assert(down_names.to_set().union(up_names.to_set()).union(common_names.to_set())
            =~= done3);
    }
    assert(ln.to_set().subset_of(done3)) by {
        assert(down_names.to_set().union(up_names.to_set()).union(common_names.to_set())
            =~= done3);
    }
    ln.lemma_filter_len(absent_from(rn));
    rn.lemma_filter_len(absent_from(ln));
    assert(ln.len() == l0.len());
    assert(rn.len() == r0.len());
    lemma_settled_at_last(w3, r0, l0, done3, up_names.len(), down_names.len());
}

/// Two runs in a row, both ways and with nothing removed: the first leaves
/// the remote folder and the local directory holding the same entries, and
/// the second changes nothing on either side, so that it transfers nothing.
pub proof fn lemma_second_run_changes_nothing(
    command: Command,
    ids: spec_fn(Seq<char>) -> u64,
    depth: nat,
    folder_id: u64,
    path: Seq<char>,
    w: World,
)
    requires
        both_ways(command),
        remote_fits(w.remote, depth),
        local_fits(w.local, depth),
        agree(w.remote, w.local, depth),
    ensures
        mirrored(
            run_level(two_way(command), ids, depth, folder_id, path, w).remote,
            run_level(two_way(command), ids, depth, folder_id, path, w).local,
        ),
        run_level(
            two_way(command),
            ids,
            depth,
            folder_id,
            path,
            run_level(two_way(command), ids, depth, folder_id, path, w),
        ) == run_level(two_way(command), ids, depth, folder_id, path, w),
{
    lemma_run_converges(command, ids, depth, folder_id, path, w);
    lemma_mirrored_run_changes_nothing(
        command,
        ids,
        depth,
        folder_id,
        path,
        run_level(two_way(command), ids, depth, folder_id, path, w),
    );
}

/// The rules of the one-way upload, under which `same` tells whether the
/// checksum of a remote file equals that of a local file.
pub open spec fn one_way(command: UploadCommand, same: spec_fn(u64, Seq<char>) -> bool) -> Rules {
    Rules {
        plan: |
            listing: Seq<EntryView>,
            folder_id: u64,
            entries: Seq<LocalEntryView>,
            path: Seq<char>,
        | command.folder_steps(entries, FolderView { folder_id, listing }),
        same,
    }
}

/// Whether the remote folder holds all that the local directory holds: the
/// names on either side are distinct, and under the name of each local
/// entry the remote folder has an entry of the same kind, which for a file
/// has the same checksum if checksums count, and for a directory holds all
/// that the directory holds.
pub open spec fn held(
    remote: Seq<RemoteNode>,
    local: Seq<LocalNode>,
    by_checksum: bool,
    same: spec_fn(u64, Seq<char>) -> bool,
) -> bool
    decreases remote, 1nat,
{
    &&& names_of_remote(remote).no_duplicates()
    &&& names_of_local(local).no_duplicates()
    &&& forall|j: int| 0 <= j < local.len() ==> (#[trigger] local[j]).name() is Some
    &&& forall|j: int|
        0 <= j < local.len() ==> names_of_remote(remote).contains(
            (#[trigger] local[j]).name()->0,
        )
    &&& forall|i: int, j: int|
        #![trigger remote[i], local[j]]
        0 <= i < remote.len() && 0 <= j < local.len() && local[j].name() == Some(remote[i].name())
            ==> held_as(remote[i], local[j], by_checksum, same)
}

/// Whether a remote entry holds what a local entry of the same name holds.
pub open spec fn held_as(
    remote: RemoteNode,
    local: LocalNode,
    by_checksum: bool,
    same: spec_fn(u64, Seq<char>) -> bool,
) -> bool
    decreases remote, 0nat,
{
    match (remote, local) {
        (RemoteNode::File { file_id, .. }, LocalNode::File { path }) => !by_checksum || same(
            file_id,
            path,
        ),
        (
            RemoteNode::Folder { children, .. },
            LocalNode::Dir { children: local_children, .. },
        ) => held(children, local_children, by_checksum, same),
        _ => false,
    }
}

/// Whether `entry` is the listing of one of `nodes`.
pub open spec fn listed(nodes: Seq<LocalNode>, entry: LocalEntryView) -> bool {
    exists|j: int| 0 <= j < nodes.len() && (#[trigger] nodes[j]).entry() == entry
}

/// Under the presence method and under the checksum method, the upload of
/// entries that the remote folder holds already changes nothing, however
/// deep it descends: no file is uploaded again.
pub proof fn lemma_upload_entries_send_nothing(
    command: UploadCommand,
    same: spec_fn(u64, Seq<char>) -> bool,
    ids: spec_fn(Seq<char>) -> u64,
    fuel: nat,
    folder_id: u64,
    part: Seq<LocalEntryView>,
    w: World,
)
    requires
        command.compare_method != CompareMethod::Force,
        !command.remove_after_upload,
        held(w.remote, w.local, command.compare_method == CompareMethod::Checksum, same),
        forall|k: int| 0 <= k < part.len() ==> listed(w.local, #[trigger] part[k]),
    ensures
        run_steps(
            one_way(command, same),
            ids,
            fuel,
            command.folder_steps(
                part,
                FolderView { folder_id, listing: remote_listing(w.remote) },
            ),
            w,
        ) == w,
    decreases fuel, 0nat, part.len(),
{
    let rules = one_way(command, same);
    let folder = FolderView { folder_id, listing: remote_listing(w.remote) };
    let by_sum = command.compare_method == CompareMethod::Checksum;
    if part.len() > 0 {
        let init = part.drop_last();
        let entry = part.last();
        assert forall|k: int| 0 <= k < init.len() implies listed(w.local, #[trigger] init[k]) by {
            assert(init[k] == part[k]);
        }
        lemma_upload_entries_send_nothing(command, same, ids, fuel, folder_id, init, w);
        let last = command.entry_steps(entry, folder);
        lemma_run_steps_append(rules, ids, fuel, command.folder_steps(init, folder), last, w);
        assert(part[part.len() - 1] == entry);
        assert(listed(w.local, entry));
        let j = choose|j: int| 0 <= j < w.local.len() && (#[trigger] w.local[j]).entry() == entry;
        let remote_names = names_of_remote(w.remote);
        let local_names = names_of_local(w.local);
        assert(w.local[j].name() is Some);
        let name = w.local[j].name()->0;
        assert(entry.name() == Some(name));
        assert(remote_names.contains(name));
        let i = choose|i: int| 0 <= i < remote_names.len() && remote_names[i] == name;
        assert(local_names[j] == name);
        lemma_position_distinct(remote_names, i);
        lemma_position_distinct(local_names, j);
        assert(w.remote[i].name() == name);
        assert(w.local[j].name() == Some(w.remote[i].name()));
        assert(held_as(w.remote[i], w.local[j], by_sum, same));
        match (w.remote[i], w.local[j]) {
            (RemoteNode::File { file_id, name: n }, LocalNode::File { path }) => {
                lemma_first_file(folder.listing, name, 0);
                assert(folder.listing[i] == w.remote[i].entry());
                let found = folder.file_index(name);
                assert(found is Some);
                assert(remote_names[found->0] == name);
                assert(found->0 == i);
                if by_sum {
                    let step = last[0];
                    assert(last =~= seq![step]);
                    lemma_run_one_step(rules, ids, fuel, step, w);
                } else {
                    assert(last =~= Seq::<StepView>::empty());
                }
            },
            (
                RemoteNode::Folder { folder_id: below_id, name: n, children },
                LocalNode::Dir { path, children: local_children },
            ) => {
                let step = last[0];
                assert(last =~= seq![step]);
                lemma_run_one_step(rules, ids, fuel, step, w);
                if fuel > 0 {
                    let below = World {
                        remote: children,
                        local: local_children,
                        log: w.log,
                    };
                    lemma_upload_again_sends_nothing(
                        command,
                        same,
                        ids,
                        (fuel - 1) as nat,
                        below_id,
                        path,
                        below,
                    );
                    assert(w.remote.update(i, w.remote[i]) =~= w.remote);
                    assert(w.local.update(j, w.local[j]) =~= w.local);
                }
                assert(run_pair(rules, ids, fuel, i, j, w) == w);
            },
            _ => {
                assert(false);
            },
        }
    }
}

/// What was uploaded is not uploaded again: under the presence method and
/// under the checksum method, a run of the upload on a remote folder that
/// holds all that the local directory holds, with equal checksums where
/// checksums count, changes nothing on either side, at any level, so that
/// it makes no upload.
pub proof fn lemma_upload_again_sends_nothing(
    command: UploadCommand,
    same: spec_fn(u64, Seq<char>) -> bool,
    ids: spec_fn(Seq<char>) -> u64,
    fuel: nat,
    folder_id: u64,
    path: Seq<char>,
    w: World,
)
    requires
        command.compare_method != CompareMethod::Force,
        !command.remove_after_upload,
        held(w.remote, w.local, command.compare_method == CompareMethod::Checksum, same),
    ensures
        run_level(one_way(command, same), ids, fuel, folder_id, path, w) == w,
    decreases fuel, 1nat, 0nat,
{
    let entries = local_listing(w.local);
    assert forall|k: int| 0 <= k < entries.len() implies listed(w.local, #[trigger] entries[k]) by {
        assert(w.local[k].entry() == entries[k]);
    }
    lemma_upload_entries_send_nothing(command, same, ids, fuel, folder_id, entries, w);
}

/// Whether the entries of a local directory all have names, and distinct
/// ones, at every level.
pub open spec fn local_sound(nodes: Seq<LocalNode>) -> bool
    decreases nodes,
{
    &&& names_of_local(nodes).no_duplicates()
    &&& forall|j: int| 0 <= j < nodes.len() ==> (#[trigger] nodes[j]).name() is Some
    &&& forall|j: int|
        0 <= j < nodes.len() && (#[trigger] nodes[j]) is Dir ==> local_sound(
            nodes[j]->Dir_children,
        )
}

/// Whether a local directory can be uploaded into a remote folder: the
/// names in the folder are distinct, and no name is a file on one side and
/// a folder on the other, at any level.
pub open spec fn pairs_fit(remote: Seq<RemoteNode>, local: Seq<LocalNode>) -> bool
    decreases remote,
{
    &&& names_of_remote(remote).no_duplicates()
    &&& forall|i: int, j: int|
        #![trigger remote[i], local[j]]
        0 <= i < remote.len() && 0 <= j < local.len() && local[j].name() == Some(remote[i].name())
            ==> match (remote[i], local[j]) {
            (RemoteNode::File { .. }, LocalNode::File { .. }) => true,
            (
                RemoteNode::Folder { children, .. },
                LocalNode::Dir { children: local_children, .. },
            ) => pairs_fit(children, local_children),
            _ => false,
        }
}

/// The changes that the upload of the first `upto` entries of a local
/// directory into a remote folder makes, in their order.
pub open spec fn log_level(
    command: UploadCommand,
    same: spec_fn(u64, Seq<char>) -> bool,
    ids: spec_fn(Seq<char>) -> u64,
    fuel: nat,
    folder_id: u64,
    remote: Seq<RemoteNode>,
    local: Seq<LocalNode>,
    upto: nat,
) -> Seq<TaskView>
    decreases fuel, 1nat, upto,
{
    if upto == 0 || upto > local.len() {
        Seq::empty()
    } else {
        log_level(command, same, ids, fuel, folder_id, remote, local, (upto - 1) as nat)
            + log_entry(command, same, ids, fuel, folder_id, remote, local[upto - 1])
    }
}

/// The changes that the upload of one local entry into a remote folder
/// makes, in their order.
///
/// A file is uploaded if the method says so at once, or after a comparison
/// of checksums that finds them different; else nothing is done about it. A
/// directory whose name the folder holds is uploaded into the folder of
/// that name; for any other the folder is created first.
pub open spec fn log_entry(
    command: UploadCommand,
    same: spec_fn(u64, Seq<char>) -> bool,
    ids: spec_fn(Seq<char>) -> u64,
    fuel: nat,
    folder_id: u64,
    remote: Seq<RemoteNode>,
    node: LocalNode,
) -> Seq<TaskView>
    decreases fuel, 0nat, 0nat,
{
    match (node, node.name()) {
        (LocalNode::File { path }, Some(name)) => match command.file_task(
            path,
            name,
            FolderView { folder_id, listing: remote_listing(remote) },
        ) {
            Some(TaskView::Upload(upload)) => seq![TaskView::Upload(upload)],
            Some(TaskView::LocalChecksum { file_id, upload }) => if same(file_id, upload.path) {
                Seq::empty()
            } else {
                seq![TaskView::Upload(upload)]
            },
            _ => Seq::empty(),
        },
        (LocalNode::Dir { path, children }, Some(name)) => match position(
            names_of_remote(remote),
            name,
        ) {
            Some(i) => match remote[i] {
                RemoteNode::Folder { folder_id: below_id, children: remote_children, .. } => {
                    if fuel == 0 {
                        Seq::empty()
                    } else {
                        log_level(
                            command,
                            same,
                            ids,
                            (fuel - 1) as nat,
                            below_id,
                            remote_children,
                            children,
                            children.len(),
                        )
                    }
                },
                _ => Seq::empty(),
            },
            None => {
                let create = TaskView::CreateRemoteFolder {
                    name,
                    parent_id: folder_id,
                    path,
                    retried: true,
                };
                if fuel == 0 {
                    seq![create]
                } else {
                    seq![create] + log_level(
                        command,
                        same,
                        ids,
                        (fuel - 1) as nat,
                        ids(path),
                        Seq::empty(),
                        children,
                        children.len(),
                    )
                }
            },
        },
        _ => Seq::empty(),
    }
}

/// What holds of the remote folder while the first `done` entries of the
/// local directory are uploaded, where `r0` is what the folder held at
/// first: the entries that were there at first are still listed as they
/// were; the names are distinct, and each is a name that was there at first
/// or that of a local entry dealt with; and what bears no name of a local
/// entry dealt with is as it was.
pub open spec fn uploading(
    remote: Seq<RemoteNode>,
    r0: Seq<RemoteNode>,
    local: Seq<LocalNode>,
    done: int,
) -> bool {
    &&& remote.len() >= r0.len()
    &&& forall|i: int| 0 <= i < r0.len() ==> (#[trigger] remote[i]).entry() == r0[i].entry()
    &&& names_of_remote(remote).no_duplicates()
    &&& forall|i: int|
        0 <= i < remote.len() ==> names_of_remote(r0).contains((#[trigger] remote[i]).name())
            || exists|j: int| 0 <= j < done && (#[trigger] local[j]).name() == Some(remote[i].name())
    &&& forall|i: int|
        0 <= i < r0.len() && (forall|j: int|
            0 <= j < done ==> (#[trigger] local[j]).name() != Some(r0[i].name())) ==> (
        #[trigger] remote[i]) == r0[i]
}

/// The upload of the first `k` entries of a local directory leaves the
/// directory as it was and makes the changes that are expected of it.
pub proof fn lemma_upload_prefix(
    command: UploadCommand,
    same: spec_fn(u64, Seq<char>) -> bool,
    ids: spec_fn(Seq<char>) -> u64,
    fuel: nat,
    folder_id: u64,
    w: World,
    k: nat,
)
    requires
        !command.remove_after_upload,
        local_sound(w.local),
        pairs_fit(w.remote, w.local),
        k <= w.local.len(),
    ensures
        ({
            let after = run_steps(
                one_way(command, same),
                ids,
                fuel,
                command.folder_steps(
                    local_listing(w.local).take(k as int),
                    FolderView { folder_id, listing: remote_listing(w.remote) },
                ),
                w,
            );
            &&& after.local == w.local
            &&& after.log == w.log + log_level(
                command,
                same,
                ids,
                fuel,
                folder_id,
                w.remote,
                w.local,
                k,
            )
            &&& uploading(after.remote, w.remote, w.local, k as int)
        }),
    decreases fuel, 0nat, k,
{
    let rules = one_way(command, same);
    let folder = FolderView { folder_id, listing: remote_listing(w.remote) };
    let entries = local_listing(w.local);
    if k == 0 {
        assert(entries.take(0) =~= Seq::<LocalEntryView>::empty());
        assert(w.log + Seq::<TaskView>::empty() =~= w.log);
        assert forall|i: int| 0 <= i < w.remote.len() implies names_of_remote(w.remote).contains(
            (#[trigger] w.remote[i]).name(),
        ) by {
            assert(names_of_remote(w.remote)[i] == w.remote[i].name());
        }
    } else {
        let before = (k - 1) as nat;
        lemma_upload_prefix(command, same, ids, fuel, folder_id, w, before);
        let first = command.folder_steps(entries.take(before as int), folder);
        let mid = run_steps(rules, ids, fuel, first, w);
        let node = w.local[before as int];
        let entry = node.entry();
        assert(entries.take(k as int).drop_last() =~= entries.take(before as int));
        assert(entries.take(k as int).last() == entry);
        let last = command.entry_steps(entry, folder);
        assert(command.folder_steps(entries.take(k as int), folder) == first + last);
        lemma_run_steps_append(rules, ids, fuel, first, last, w);
        let expected = log_entry(command, same, ids, fuel, folder_id, w.remote, node);
        let so_far = log_level(command, same, ids, fuel, folder_id, w.remote, w.local, before);
        assert(mid.log + expected =~= w.log + (so_far + expected));
        assert(node.name() is Some);
        let name = node.name()->0;
        let local_names = names_of_local(w.local);
        let remote_names = names_of_remote(mid.remote);
        assert(local_names[before as int] == name);
        lemma_position_distinct(local_names, before as int);
        assert forall|j: int| 0 <= j < before implies (#[trigger] w.local[j]).name() != Some(
            name,
        ) by {
            assert(w.local[j].name() is Some);
            assert(local_names[j] == w.local[j].name()->0);
        }
        match node {
            LocalNode::File { path } => {
                let after = run_steps(rules, ids, fuel, last, mid);
                match command.file_task(path, name, folder) {
                    Some(task) => {
                        let step = last[0];
                        assert(last =~= seq![step]);
                        lemma_run_one_step(rules, ids, fuel, step, mid);
                        assert(after == run_task(rules, ids, fuel, task, mid));
                        if after.remote != mid.remote {
                            let upload = match task {
                                TaskView::Upload(upload) => upload,
                                TaskView::LocalChecksum { upload, .. } => upload,
                                _ => arbitrary(),
                            };
                            assert(upload.name == name);
                            let added = RemoteNode::File { file_id: ids(upload.path), name };
                            assert(after.remote == mid.remote.push(added));
                            assert(names_of_remote(after.remote) =~= remote_names.push(name));
                            lemma_names_after_push(remote_names, name);
                        }
                    },
                    None => {
                        assert(last =~= Seq::<StepView>::empty());
                    },
                }
                assert(uploading(after.remote, w.remote, w.local, k as int)) by {
                    assert forall|i: int| 0 <= i < after.remote.len() implies names_of_remote(
                        w.remote,
                    ).contains((#[trigger] after.remote[i]).name()) || exists|j: int|
                        0 <= j < k && (#[trigger] w.local[j]).name() == Some(
                            after.remote[i].name(),
                        ) by {
                        if i < mid.remote.len() {
                            assert(after.remote[i] == mid.remote[i]);
                            if !names_of_remote(w.remote).contains(mid.remote[i].name()) {
                                let j = choose|j: int|
                                    0 <= j < before && (#[trigger] w.local[j]).name() == Some(
                                        mid.remote[i].name(),
                                    );
                                assert(0 <= j < k);
                            }
                        } else {
                            assert(w.local[before as int].name() == Some(after.remote[i].name()));
                        }
                    }
                    assert forall|i: int|
                        0 <= i < w.remote.len() && (forall|j: int|
                            0 <= j < k ==> (#[trigger] w.local[j]).name() != Some(
                                w.remote[i].name(),
                            )) implies (#[trigger] after.remote[i]) == w.remote[i] by {
                        assert(mid.remote[i] == w.remote[i]);
                    }
                }
            },
            LocalNode::Dir { path, children } => {
                let step = last[0];
                assert(last =~= seq![step]);
                lemma_run_one_step(rules, ids, fuel, step, mid);
                let after = run_task(rules, ids, fuel, step.task, mid);
                let r0_names = names_of_remote(w.remote);
                if r0_names.contains(name) {
                    let i = choose|i: int| 0 <= i < r0_names.len() && r0_names[i] == name;
                    lemma_position_distinct(r0_names, i);
                    assert(mid.remote[i].entry() == w.remote[i].entry());
                    assert(remote_names[i] == name);
                    lemma_position_distinct(remote_names, i);
                    assert(w.local[before as int].name() == Some(w.remote[i].name()));
                    assert(mid.remote[i] == w.remote[i]);
                    match w.remote[i] {
                        RemoteNode::Folder { folder_id: below_id, name: n, children: below } => {
                            if fuel > 0 {
                                let start = World { remote: below, local: children, log: mid.log };
                                lemma_upload_log(
                                    command,
                                    same,
                                    ids,
                                    (fuel - 1) as nat,
                                    below_id,
                                    path,
                                    start,
                                );
                                let ended = run_level(
                                    rules,
                                    ids,
                                    (fuel - 1) as nat,
                                    below_id,
                                    path,
                                    start,
                                );
                                let node_after = RemoteNode::Folder {
                                    folder_id: below_id,
                                    name: n,
                                    children: ended.remote,
                                };
                                assert(after.remote == mid.remote.update(i, node_after));
                                assert(after.local =~= w.local);
                                assert(names_of_remote(after.remote) =~= remote_names);
                            }
                            assert(uploading(after.remote, w.remote, w.local, k as int)) by {
                                assert forall|a: int|
                                    0 <= a < after.remote.len() implies names_of_remote(
                                    w.remote,
                                ).contains((#[trigger] after.remote[a]).name()) || exists|j: int|
                                    0 <= j < k && (#[trigger] w.local[j]).name() == Some(
                                        after.remote[a].name(),
                                    ) by {
                                    assert(after.remote[a].name() == mid.remote[a].name());
                                    if !names_of_remote(w.remote).contains(mid.remote[a].name()) {
                                        let j = choose|j: int|
                                            0 <= j < before && (#[trigger] w.local[j]).name()
                                                == Some(mid.remote[a].name());
                                        assert(0 <= j < k);
                                    }
                                }
                                assert forall|a: int|
                                    0 <= a < w.remote.len() && (forall|j: int|
                                        0 <= j < k ==> (#[trigger] w.local[j]).name() != Some(
                                            w.remote[a].name(),
                                        )) implies (#[trigger] after.remote[a]) == w.remote[a] by {
                                    assert(w.local[before as int].name() != Some(
                                        w.remote[a].name(),
                                    ));
                                    assert(a != i);
                                    assert(mid.remote[a] == w.remote[a]);
                                }
                                assert forall|a: int| 0 <= a < w.remote.len() implies (
                                #[trigger] after.remote[a]).entry() == w.remote[a].entry() by {
                                    assert(mid.remote[a].entry() == w.remote[a].entry());
                                }
                            }
                        },
                        _ => {
                            assert(false);
                        },
                    }
                } else {
                    assert(!remote_names.contains(name)) by {
                        if remote_names.contains(name) {
                            let a = choose|a: int|
                                0 <= a < remote_names.len() && remote_names[a] == name;
                            assert(mid.remote[a].name() == name);
                            let j = choose|j: int|
                                0 <= j < before && (#[trigger] w.local[j]).name() == Some(
                                    mid.remote[a].name(),
                                );
                            assert(false);
                        }
                    }
                    let empty_folder = RemoteNode::Folder {
                        folder_id: ids(path),
                        name,
                        children: Seq::empty(),
                    };
                    let created = World {
                        remote: mid.remote.push(empty_folder),
                        log: mid.log.push(step.task),
                        ..mid
                    };
                    let at = mid.remote.len() as int;
                    assert(names_of_remote(created.remote) =~= remote_names.push(name));
                    lemma_names_after_push(remote_names, name);
                    lemma_position_distinct(names_of_remote(created.remote), at);
                    assert(position(r0_names, name) is None);
                    assert(mid.log.push(step.task) =~= mid.log + seq![step.task]);
                    if fuel > 0 {
                        let start = World {
                            remote: Seq::<RemoteNode>::empty(),
                            local: children,
                            log: created.log,
                        };
                        assert(names_of_remote(start.remote) =~= Seq::<Seq<char>>::empty());
                        lemma_upload_log(
                            command,
                            same,
                            ids,
                            (fuel - 1) as nat,
                            ids(path),
                            path,
                            start,
                        );
                        let ended = run_level(
                            rules,
                            ids,
                            (fuel - 1) as nat,
                            ids(path),
                            path,
                            start,
                        );
                        let node_after = RemoteNode::Folder {
                            folder_id: ids(path),
                            name,
                            children: ended.remote,
                        };
                        assert(after.remote == created.remote.update(at, node_after));
                        assert(after.remote =~= mid.remote.push(node_after));
                        assert(after.local =~= w.local);
                        assert(names_of_remote(after.remote) =~= remote_names.push(name));
                        let below_log = log_level(
                            command,
                            same,
                            ids,
                            (fuel - 1) as nat,
                            ids(path),
                            Seq::empty(),
                            children,
                            children.len(),
                        );
                        assert(after.log =~= mid.log + (seq![step.task] + below_log));
                    }
                    assert(uploading(after.remote, w.remote, w.local, k as int)) by {
                        assert forall|a: int| 0 <= a < after.remote.len() implies names_of_remote(
                            w.remote,
                        ).contains((#[trigger] after.remote[a]).name()) || exists|j: int|
                            0 <= j < k && (#[trigger] w.local[j]).name() == Some(
                                after.remote[a].name(),
                            ) by {
                            if a < mid.remote.len() {
                                assert(after.remote[a] == mid.remote[a]);
                                if !names_of_remote(w.remote).contains(mid.remote[a].name()) {
                                    let j = choose|j: int|
                                        0 <= j < before && (#[trigger] w.local[j]).name() == Some(
                                            mid.remote[a].name(),
                                        );
                                    assert(0 <= j < k);
                                }
                            } else {
                                assert(w.local[before as int].name() == Some(
                                    after.remote[a].name(),
                                ));
                            }
                        }
                        assert forall|a: int|
                            0 <= a < w.remote.len() && (forall|j: int|
                                0 <= j < k ==> (#[trigger] w.local[j]).name() != Some(
                                    w.remote[a].name(),
                                )) implies (#[trigger] after.remote[a]) == w.remote[a] by {
                            assert(mid.remote[a] == w.remote[a]);
                        }
                        assert forall|a: int| 0 <= a < w.remote.len() implies (
                        #[trigger] after.remote[a]).entry() == w.remote[a].entry() by {
                            assert(mid.remote[a].entry() == w.remote[a].entry());
                        }
                    }
                }
            },
        }
    }
}

/// The changes of a whole run of the upload, without removal, on a local
/// directory and a remote folder that are free of conflicts: the local
/// directory is left as it was, and the changes made are those expected of
/// the upload of its entries in their order, and no others. So a file that
/// the folder holds is uploaded again only under the force method, or under
/// the checksum method when its checksum differs.
pub proof fn lemma_upload_log(
    command: UploadCommand,
    same: spec_fn(u64, Seq<char>) -> bool,
    ids: spec_fn(Seq<char>) -> u64,
    fuel: nat,
    folder_id: u64,
    path: Seq<char>,
    w: World,
)
    requires
        !command.remove_after_upload,
        local_sound(w.local),
        pairs_fit(w.remote, w.local),
    ensures
        run_level(one_way(command, same), ids, fuel, folder_id, path, w).local == w.local,
        run_level(one_way(command, same), ids, fuel, folder_id, path, w).log == w.log + log_level(
            command,
            same,
            ids,
            fuel,
            folder_id,
            w.remote,
            w.local,
            w.local.len(),
        ),
    decreases fuel, 1nat, 0nat,
{
    lemma_upload_prefix(command, same, ids, fuel, folder_id, w, w.local.len());
    assert(local_listing(w.local).take(w.local.len() as int) =~= local_listing(w.local));
}

/// A local file of whose name the remote folder holds a file is not
/// uploaded under the presence method, nor under the checksum method if the
/// checksums are equal: its upload makes no change.
pub proof fn lemma_held_file_is_not_sent(
    command: UploadCommand,
    same: spec_fn(u64, Seq<char>) -> bool,
    ids: spec_fn(Seq<char>) -> u64,
    fuel: nat,
    folder_id: u64,
    remote: Seq<RemoteNode>,
    i: int,
    path: Seq<char>,
)
    requires
        command.compare_method != CompareMethod::Force,
        names_of_remote(remote).no_duplicates(),
        0 <= i < remote.len(),
        remote[i] is File,
        file_name(path) == Some(remote[i].name()),
        command.compare_method == CompareMethod::Checksum ==> same(remote[i]->file_id, path),
    ensures
        log_entry(command, same, ids, fuel, folder_id, remote, LocalNode::File { path })
            == Seq::<TaskView>::empty(),
{
    let name = remote[i].name();
    let listing = remote_listing(remote);
    lemma_first_file(listing, name, 0);
    assert(listing[i] == remote[i].entry());
    let found = first_file(listing, name, 0);
    assert(found is Some);
    assert(names_of_remote(remote)[found->0] == name);
    assert(names_of_remote(remote)[i] == name);
    assert(found->0 == i);
}

/// A local file of whose name the remote folder holds no file is uploaded,
/// under every method: its upload makes one change, the upload.
pub proof fn lemma_new_file_is_sent(
    command: UploadCommand,
    same: spec_fn(u64, Seq<char>) -> bool,
    ids: spec_fn(Seq<char>) -> u64,
    fuel: nat,
    folder_id: u64,
    remote: Seq<RemoteNode>,
    path: Seq<char>,
)
    requires
        file_name(path) is Some,
        forall|i: int|
            0 <= i < remote.len() && (#[trigger] remote[i]) is File ==> remote[i].name()
                != file_name(path)->0,
    ensures
        log_entry(command, same, ids, fuel, folder_id, remote, LocalNode::File { path }) == seq![
            TaskView::Upload(command.upload_of(file_name(path)->0, path, folder_id)),
        ],
{
    let name = file_name(path)->0;
    let listing = remote_listing(remote);
    lemma_first_file(listing, name, 0);
    if first_file(listing, name, 0) is Some {
        let i = first_file(listing, name, 0)->0;
        assert(listing[i] == remote[i].entry());
        assert(remote[i] is File);
    }
}

} // verus!
