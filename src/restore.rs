//! The reading side: walks over a remote snapshot kept as explicit
//! worklists, to count and size it and to copy it back into a local tree
//! after a safety snapshot of that tree.
use vstd::prelude::*;

use crate::text::{join_path, join_spec};

verus! {

/// One entry of a remote directory listing: its own name (no `/`) and what
/// its attributes say.
#[derive(Clone, Debug)]
pub struct RemoteEntry {
    pub name: String,
    pub is_dir: bool,
    pub is_file: bool,
    pub size: Option<u64>,
}

/// How many entries of `es` are not directories.
pub open spec fn non_dir_count(es: Seq<RemoteEntry>) -> nat
    decreases es.len(),
{
    if es.len() == 0 {
        0
    } else {
        non_dir_count(es.drop_last()) + if es.last().is_dir {
            0nat
        } else {
            1nat
        }
    }
}

/// The sizes of the regular files of `es`, summed; an unknown size counts 0.
pub open spec fn file_bytes(es: Seq<RemoteEntry>) -> nat
    decreases es.len(),
{
    if es.len() == 0 {
        0
    } else {
        file_bytes(es.drop_last()) + if es.last().is_file {
            match es.last().size {
                Some(s) => s as nat,
                None => 0nat,
            }
        } else {
            0nat
        }
    }
}

/// The paths of the subdirectories of `dir` that listing `es` names.
pub open spec fn subdir_paths(dir: Seq<char>, es: Seq<RemoteEntry>) -> Seq<Seq<char>>
    decreases es.len(),
{
    if es.len() == 0 {
        Seq::empty()
    } else if es.last().is_dir {
        subdir_paths(dir, es.drop_last()).push(join_spec(dir, es.last().name@))
    } else {
        subdir_paths(dir, es.drop_last())
    }
}

/// A pending walk over a remote tree that counts its files and sums their
/// sizes.
pub struct RemoteTally {
    pub pending: Vec<String>,
    pub files: usize,
    pub bytes: u64,
}

impl RemoteTally {
    pub open spec fn pending_view(&self) -> Seq<Seq<char>> {
        self.pending@.map_values(|p: String| p@)
    }

    /// A walk that starts at directory `root`.
    pub fn new(root: &str) -> (r: RemoteTally)
        ensures
            r.pending_view() == seq![root@],
            r.files == 0,
            r.bytes == 0,
    {
        let mut pending: Vec<String> = Vec::new();
        pending.push(root.to_string());
        let r = RemoteTally { pending, files: 0, bytes: 0 };
        assert(r.pending_view() =~= seq![root@]);
        r
    }

    /// The next directory to list, taken off the worklist; `None` once the
    /// walk is over.
    pub fn next_dir(&mut self) -> (r: Option<String>)
        ensures
            old(self).pending@.len() == 0 ==> r is None && final(self).pending@ == old(self).pending@
                && final(self).files == old(self).files && final(self).bytes == old(self).bytes,
            old(self).pending@.len() > 0 ==> r == Some(old(self).pending@.last())
                && final(self).pending@ == old(self).pending@.drop_last()
                && final(self).files == old(self).files && final(self).bytes == old(self).bytes,
    {
        self.pending.pop()
    }

    /// Takes in the listing of directory `dir`: its files are counted and
    /// sized and its subdirectories join the worklist. Returns false, with
    /// the tally unchanged, where a total would overflow.
    pub fn absorb(&mut self, dir: &str, listing: &Vec<RemoteEntry>) -> (ok: bool)
        ensures
            ok <==> (old(self).files + non_dir_count(listing@) <= usize::MAX && old(self).bytes
                + file_bytes(listing@) <= u64::MAX),
            ok ==> final(self).files == old(self).files + non_dir_count(listing@)
                && final(self).bytes == old(self).bytes + file_bytes(listing@)
                && final(self).pending_view() == old(self).pending_view() + subdir_paths(
                dir@,
                listing@,
            ),
            !ok ==> *final(self) == *old(self),
    {
        let mut files: usize = 0;
        let mut bytes: u128 = 0;
        let mut i: usize = 0;
        while i < listing.len()
            invariant
                i <= listing@.len(),
                files == non_dir_count(listing@.subrange(0, i as int)),
                bytes == file_bytes(listing@.subrange(0, i as int)),
                files <= i,
                bytes <= i * 0xffff_ffff_ffff_ffffu128,
            decreases listing@.len() - i,
        {
            proof {
                assert(listing@.subrange(0, i + 1).drop_last() =~= listing@.subrange(0, i as int));
            }
            let e = &listing[i];
            if !e.is_dir {
                files += 1;
            }
            if e.is_file {
                match e.size {
                    Some(sz) => {
                        bytes = bytes + sz as u128;
                    },
                    None => {},
                }
            }
            i += 1;
        }
        assert(listing@.subrange(0, listing@.len() as int) =~= listing@);
        if files > usize::MAX - self.files || bytes > (u64::MAX - self.bytes) as u128 {
            return false;
        }
        self.files = self.files + files;
        self.bytes = self.bytes + bytes as u64;
        let ghost base = old(self).pending_view();
        let mut k: usize = 0;
        while k < listing.len()
            invariant
                k <= listing@.len(),
                self.pending_view() == base + subdir_paths(dir@, listing@.subrange(0, k as int)),
                self.files == old(self).files + non_dir_count(listing@),
                self.bytes == old(self).bytes + file_bytes(listing@),
            decreases listing@.len() - k,
        {
            proof {
                assert(listing@.subrange(0, k + 1).drop_last() =~= listing@.subrange(0, k as int));
            }
            let e = &listing[k];
            if e.is_dir {
                let p = join_path(dir, e.name.as_str());
                let ghost before = self.pending@;
                self.pending.push(p);
                assert(self.pending@ == before.push(p));
                assert(self.pending_view() =~= before.map_values(|q: String| q@).push(p@));
                assert(self.pending_view() =~= base + subdir_paths(
                    dir@,
                    listing@.subrange(0, k + 1),
                ));
            }
            k += 1;
        }
        true
    }
}


/// The application id under which the safety snapshot of `app_id`'s local
/// tree is written: `<app_id>_pre_restore`.
pub open spec fn pre_restore_id(app_id: Seq<char>) -> Seq<char> {
    app_id + seq!['_', 'p', 'r', 'e', '_', 'r', 'e', 's', 't', 'o', 'r', 'e']
}

/// The application id for the safety snapshot taken before restoring
/// `app_id`.
pub fn pre_restore_app_id(app_id: &str) -> (r: String)
    ensures
        r@ == pre_restore_id(app_id@),
{
    let mut s = app_id.to_string();
    let suffix = "_pre_restore";
    proof {
        reveal_strlit("_pre_restore");
    }
    s.append(suffix);
    assert(s@ =~= pre_restore_id(app_id@));
    s
}

/// A file to copy from the remote store to the local tree, overwriting what
/// is there.
#[derive(Clone, Debug)]
pub struct FileCopy {
    pub remote_path: String,
    pub local_path: String,
}

/// The files that listing `es` of `remote_dir` names, each paired with its
/// place under `local_dir`, in listing order.
pub open spec fn copies_of(remote_dir: Seq<char>, local_dir: Seq<char>, es: Seq<RemoteEntry>) -> Seq<
    (Seq<char>, Seq<char>),
>
    decreases es.len(),
{
    if es.len() == 0 {
        Seq::empty()
    } else if es.last().is_dir {
        copies_of(remote_dir, local_dir, es.drop_last())
    } else {
        copies_of(remote_dir, local_dir, es.drop_last()).push(
            (join_spec(remote_dir, es.last().name@), join_spec(local_dir, es.last().name@)),
        )
    }
}

/// The subdirectories that listing `es` of `remote_dir` names, each paired
/// with its place under `local_dir`, in listing order.
pub open spec fn dir_pairs_of(remote_dir: Seq<char>, local_dir: Seq<char>, es: Seq<RemoteEntry>) -> Seq<
    (Seq<char>, Seq<char>),
>
    decreases es.len(),
{
    if es.len() == 0 {
        Seq::empty()
    } else if es.last().is_dir {
        dir_pairs_of(remote_dir, local_dir, es.drop_last()).push(
            (join_spec(remote_dir, es.last().name@), join_spec(local_dir, es.last().name@)),
        )
    } else {
        dir_pairs_of(remote_dir, local_dir, es.drop_last())
    }
}

/// What a restore asks its driver to do next.
pub enum RestoreAction {
    /// Upload the whole local tree, with no exclusions, as a snapshot of
    /// this application id; the restore goes on only once it succeeded.
    TakeSafetySnapshot { app_id: String },
    /// Make sure `local_dir` exists, list `remote_dir` and hand the listing
    /// to `absorb_listing`.
    Visit { remote_dir: String, local_dir: String },
    /// Nothing is left to copy.
    Finished,
}

/// A restore of one snapshot into a local tree. Nothing local is touched
/// before the safety snapshot is confirmed; after that the snapshot's
/// directories are walked from a worklist, and its files are copied over
/// the local ones. Nothing local is ever deleted.
pub struct RestoreSession {
    app_id: String,
    safety_taken: bool,
    pending: Vec<(String, String)>,
}

impl RestoreSession {
    /// The application id being restored.
    pub closed spec fn app(&self) -> Seq<char> {
        self.app_id@
    }

    /// Whether the safety snapshot was confirmed.
    pub closed spec fn safety_done(&self) -> bool {
        self.safety_taken
    }

    /// The pairs of remote and local directories still to visit; the last
    /// comes next.
    pub closed spec fn pending_view(&self) -> Seq<(Seq<char>, Seq<char>)> {
        self.pending@.map_values(|p: (String, String)| (p.0@, p.1@))
    }

    /// A restore of the snapshot at `snapshot_dir` of application `app_id`
    /// into `local_root`, the safety snapshot not yet taken.
    pub fn new(app_id: &str, snapshot_dir: &str, local_root: &str) -> (r: RestoreSession)
        ensures
            r.app() == app_id@,
            !r.safety_done(),
            r.pending_view() == seq![(snapshot_dir@, local_root@)],
    {
        let mut pending: Vec<(String, String)> = Vec::new();
        pending.push((snapshot_dir.to_string(), local_root.to_string()));
        let r = RestoreSession { app_id: app_id.to_string(), safety_taken: false, pending };
        assert(r.pending_view() =~= seq![(snapshot_dir@, local_root@)]);
        r
    }

    /// The next thing to do. Until the safety snapshot is confirmed that is
    /// always the safety snapshot, and the session stays as it was; then
    /// each pending directory in turn, then the end.
    pub fn next_action(&mut self) -> (r: RestoreAction)
        ensures
            !old(self).safety_done() ==> (r matches RestoreAction::TakeSafetySnapshot { app_id }
                && app_id@ == pre_restore_id(old(self).app())) && final(self).app()
                == old(self).app() && final(self).pending_view() == old(self).pending_view()
                && !final(self).safety_done(),
            old(self).safety_done() && old(self).pending_view().len() == 0 ==> r is Finished
                && final(self).app() == old(self).app() && final(self).safety_done()
                && final(self).pending_view() == old(self).pending_view(),
            old(self).safety_done() && old(self).pending_view().len() > 0 ==> (r matches RestoreAction::Visit {
                remote_dir,
                local_dir,
            } && remote_dir@ == old(self).pending_view().last().0 && local_dir@ == old(
                self,
            ).pending_view().last().1) && final(self).app() == old(self).app()
                && final(self).safety_done() && final(self).pending_view() == old(self).pending_view().drop_last(),
    {
        if !self.safety_taken {
            return RestoreAction::TakeSafetySnapshot { app_id: pre_restore_app_id(self.app_id.as_str()) };
        }
        match self.pending.pop() {
            Some(p) => {
                let (remote_dir, local_dir) = p;
                RestoreAction::Visit { remote_dir, local_dir }
            },
            None => RestoreAction::Finished,
        }
    }

    /// Records that the safety snapshot was written.
    pub fn confirm_safety_snapshot(&mut self)
        ensures
            final(self).safety_done(),
            final(self).app() == old(self).app(),
            final(self).pending_view() == old(self).pending_view(),
    {
        self.safety_taken = true;
    }

    /// Takes in the listing of `remote_dir`, to be mirrored at `local_dir`:
    /// its subdirectories join the worklist, and the files to copy are
    /// returned, each to the same name under `local_dir`.
    pub fn absorb_listing(&mut self, remote_dir: &str, local_dir: &str, listing: &Vec<RemoteEntry>) -> (r:
        Vec<FileCopy>)
        requires
            old(self).safety_done(),
        ensures
            final(self).safety_done(),
            final(self).app() == old(self).app(),
            final(self).pending_view() == old(self).pending_view() + dir_pairs_of(
                remote_dir@,
                local_dir@,
                listing@,
            ),
            r@.map_values(|c: FileCopy| (c.remote_path@, c.local_path@)) == copies_of(
                remote_dir@,
                local_dir@,
                listing@,
            ),
    {
        let ghost base = old(self).pending_view();
        let mut copies: Vec<FileCopy> = Vec::new();
        let mut k: usize = 0;
        while k < listing.len()
            invariant
                k <= listing@.len(),
                self.safety_taken,
                self.app_id == old(self).app_id,
                self.pending_view() == base + dir_pairs_of(
                    remote_dir@,
                    local_dir@,
                    listing@.subrange(0, k as int),
                ),
                copies@.map_values(|c: FileCopy| (c.remote_path@, c.local_path@)) == copies_of(
                    remote_dir@,
                    local_dir@,
                    listing@.subrange(0, k as int),
                ),
            decreases listing@.len() - k,
        {
            proof {
                assert(listing@.subrange(0, k + 1).drop_last() =~= listing@.subrange(0, k as int));
            }
            let e = &listing[k];
            let rp = join_path(remote_dir, e.name.as_str());
            let lp = join_path(local_dir, e.name.as_str());
            if e.is_dir {
                let ghost before = self.pending@;
                self.pending.push((rp, lp));
                assert(self.pending@ == before.push((rp, lp)));
                assert(self.pending_view() =~= before.map_values(
                    |p: (String, String)| (p.0@, p.1@),
                ).push((rp@, lp@)));
                assert(self.pending_view() =~= base + dir_pairs_of(
                    remote_dir@,
                    local_dir@,
                    listing@.subrange(0, k + 1),
                ));
            } else {
                let ghost before = copies@;
                let c = FileCopy { remote_path: rp, local_path: lp };
                copies.push(c);
                assert(copies@ == before.push(c));
                assert(copies@.map_values(|c: FileCopy| (c.remote_path@, c.local_path@)) =~= before.map_values(
                    |c: FileCopy| (c.remote_path@, c.local_path@),
                ).push((rp@, lp@)));
            }
            k += 1;
        }
        assert(listing@.subrange(0, listing@.len() as int) =~= listing@);
        copies
    }
}

/// Counts of one upload or download, for progress display only.
pub struct TransferProgress {
    pub total_files: usize,
    pub completed_files: usize,
}

impl TransferProgress {
    pub fn new(total_files: usize) -> (r: TransferProgress)
        ensures
            r.total_files == total_files,
            r.completed_files == 0,
    {
        TransferProgress { total_files, completed_files: 0 }
    }

    /// Counts one more transferred file; the count stops at `usize::MAX`.
    pub fn advance(&mut self)
        ensures
            final(self).total_files == old(self).total_files,
            final(self).completed_files == if old(self).completed_files < usize::MAX {
                old(self).completed_files + 1
            } else {
                old(self).completed_files as int
            },
    {
        if self.completed_files < usize::MAX {
            self.completed_files = self.completed_files + 1;
        }
    }
}


/// The restore walk keeps remote and local places in step: the first
/// pending pair is the snapshot directory and the local root, so an entry
/// `name` listed there goes from `snapshot_dir/name` to `local_root/name`;
/// and where a pending pair is the two joined with the same non-empty
/// relative path `rel`, an entry `name` listed there is paired with the two
/// joined with `rel/name`. So a file that an upload wrote at a relative path
/// is restored at that relative path.
pub proof fn lemma_walk_keeps_relative_paths(
    snapshot_dir: Seq<char>,
    local_root: Seq<char>,
    rel: Seq<char>,
    name: Seq<char>,
)
    requires
        rel.len() > 0,
        name.len() > 0,
    ensures
        join_spec(join_spec(snapshot_dir, rel), name) == join_spec(snapshot_dir, join_spec(rel, name)),
        join_spec(join_spec(local_root, rel), name) == join_spec(local_root, join_spec(rel, name)),
{
    assert(join_spec(join_spec(snapshot_dir, rel), name) =~= join_spec(
        snapshot_dir,
        join_spec(rel, name),
    ));
    assert(join_spec(join_spec(local_root, rel), name) =~= join_spec(
        local_root,
        join_spec(rel, name),
    ));
}


/// What a sequence of whole-file copies does to a tree held as a map from
/// path to file bytes: each pair `(from, to)` in turn sets `to` to the bytes
/// of `from` in `source`, overwriting; nothing is ever removed. An upload
/// applies its file steps this way to the remote store, a restore its
/// `FileCopy`s to the local tree.
pub open spec fn apply_copies(
    target: Map<Seq<char>, Seq<u8>>,
    source: Map<Seq<char>, Seq<u8>>,
    copies: Seq<(Seq<char>, Seq<char>)>,
) -> Map<Seq<char>, Seq<u8>>
    decreases copies.len(),
{
    if copies.len() == 0 {
        target
    } else {
        apply_copies(target, source, copies.drop_last()).insert(
            copies.last().1,
            source[copies.last().0],
        )
    }
}

/// Copies are additive: a path that no copy writes keeps its presence and
/// its bytes.
pub proof fn lemma_copies_keep_other_paths(
    target: Map<Seq<char>, Seq<u8>>,
    source: Map<Seq<char>, Seq<u8>>,
    copies: Seq<(Seq<char>, Seq<char>)>,
    p: Seq<char>,
)
    requires
        forall|i: int| 0 <= i < copies.len() ==> (#[trigger] copies[i]).1 != p,
    ensures
        apply_copies(target, source, copies).contains_key(p) == target.contains_key(p),
        target.contains_key(p) ==> apply_copies(target, source, copies)[p] == target[p],
    decreases copies.len(),
{
    if copies.len() > 0 {
        assert(copies[copies.len() - 1].1 != p);
        assert forall|i: int| 0 <= i < copies.drop_last().len() implies (
        #[trigger] copies.drop_last()[i]).1 != p by {
            assert(copies.drop_last()[i] == copies[i]);
        }
        lemma_copies_keep_other_paths(target, source, copies.drop_last(), p);
    }
}

/// Copies overwrite: after them, a written path holds exactly the bytes of
/// the source of the last copy that writes it.
pub proof fn lemma_last_copy_decides(
    target: Map<Seq<char>, Seq<u8>>,
    source: Map<Seq<char>, Seq<u8>>,
    copies: Seq<(Seq<char>, Seq<char>)>,
    i: int,
)
    requires
        0 <= i < copies.len(),
        forall|j: int| i < j < copies.len() ==> (#[trigger] copies[j]).1 != copies[i].1,
    ensures
        apply_copies(target, source, copies).contains_key(copies[i].1),
        apply_copies(target, source, copies)[copies[i].1] == source[copies[i].0],
    decreases copies.len(),
{
    if i < copies.len() - 1 {
        let rest = copies.drop_last();
        assert(copies[copies.len() - 1].1 != copies[i].1);
        assert(rest[i] == copies[i]);
        assert forall|j: int| i < j < rest.len() implies (#[trigger] rest[j]).1 != rest[i].1 by {
            assert(rest[j] == copies[j]);
        }
        lemma_last_copy_decides(target, source, rest, i);
    }
}

/// Upload followed by restore gives back the bytes: where an upload's last
/// write to remote path `b` copied local file `a`, and a restore's last
/// write to local path `c` copies from `b`, `c` ends up with the bytes that
/// `a` had before the upload.
pub proof fn lemma_upload_then_restore(
    local: Map<Seq<char>, Seq<u8>>,
    remote: Map<Seq<char>, Seq<u8>>,
    restored: Map<Seq<char>, Seq<u8>>,
    up: Seq<(Seq<char>, Seq<char>)>,
    down: Seq<(Seq<char>, Seq<char>)>,
    i: int,
    j: int,
)
    requires
        0 <= i < up.len(),
        forall|k: int| i < k < up.len() ==> (#[trigger] up[k]).1 != up[i].1,
        0 <= j < down.len(),
        forall|k: int| j < k < down.len() ==> (#[trigger] down[k]).1 != down[j].1,
        down[j].0 == up[i].1,
    ensures
        apply_copies(restored, apply_copies(remote, local, up), down)[down[j].1] == local[up[i].0],
{
    lemma_last_copy_decides(remote, local, up, i);
    lemma_last_copy_decides(restored, apply_copies(remote, local, up), down, j);
}

} // verus!
