//! The writing side: which local entries a snapshot takes, and where each
//! one goes on the remote store.
use vstd::prelude::*;

use crate::filter::{
    excluded, is_boundary, kept, lemma_no_rules_keep_everything, parsing_patterns,
    set_builds, ConfigurationError, ExclusionFilter,
};
use crate::text::{join_path, join_spec};

verus! {

/// A node of the local tree, by its path relative to the root (`""` for the
/// root itself, components joined by `/`).
#[derive(Clone, Debug)]
pub struct TreeEntry {
    pub path: String,
    pub is_dir: bool,
}

/// The entries of `es` that a walk with patterns `pats` keeps, in order.
pub open spec fn kept_entries(pats: Seq<Seq<char>>, es: Seq<TreeEntry>) -> Seq<TreeEntry>
    decreases es.len(),
{
    if es.len() == 0 {
        Seq::empty()
    } else if kept(pats, es.last().path@) {
        kept_entries(pats, es.drop_last()).push(es.last())
    } else {
        kept_entries(pats, es.drop_last())
    }
}

/// How many of `es` are files.
pub open spec fn file_count(es: Seq<TreeEntry>) -> nat
    decreases es.len(),
{
    if es.len() == 0 {
        0
    } else {
        file_count(es.drop_last()) + if es.last().is_dir {
            0nat
        } else {
            1nat
        }
    }
}

fn copy_entry(e: &TreeEntry) -> (r: TreeEntry)
    ensures
        r == *e,
{
    TreeEntry { path: e.path.clone(), is_dir: e.is_dir }
}

impl ExclusionFilter {
    /// The entries that a walk keeps, in their order: an entry goes where
    /// neither it nor a directory above it is matched.
    pub fn select(&self, entries: &Vec<TreeEntry>) -> (r: Vec<TreeEntry>)
        ensures
            r@ == kept_entries(self@, entries@),
    {
        let mut out: Vec<TreeEntry> = Vec::new();
        let mut i: usize = 0;
        while i < entries.len()
            invariant
                i <= entries@.len(),
                out@ == kept_entries(self@, entries@.subrange(0, i as int)),
            decreases entries@.len() - i,
        {
            proof {
                assert(entries@.subrange(0, i + 1).drop_last() =~= entries@.subrange(0, i as int));
            }
            if self.keeps(entries[i].path.as_str()) {
                out.push(copy_entry(&entries[i]));
            }
            i += 1;
        }
        assert(entries@.subrange(0, entries@.len() as int) =~= entries@);
        out
    }
}

/// The entries of a walk over the local tree that a snapshot takes, given
/// the exclusion patterns; a pattern that does not parse is dropped.
pub fn get_save_files(entries: &Vec<TreeEntry>, excluded_patterns: &Vec<String>) -> (r: Result<
    Vec<TreeEntry>,
    ConfigurationError,
>)
    ensures
        r is Ok <==> set_builds(parsing_patterns(excluded_patterns@.map_values(|p: String| p@))),
        parsing_patterns(excluded_patterns@.map_values(|p: String| p@)).len() == 0 ==> r is Ok,
        r matches Ok(v) ==> v@ == kept_entries(
            parsing_patterns(excluded_patterns@.map_values(|p: String| p@)),
            entries@,
        ),
{
    match ExclusionFilter::build(excluded_patterns) {
        Ok(f) => {
            let v = f.select(entries);
            Ok(v)
        },
        Err(e) => Err(e),
    }
}


/// A kept entry taken into the set of kept entries is a kept entry of the
/// walk, and the other way round.
pub proof fn lemma_kept_entries_exact(pats: Seq<Seq<char>>, es: Seq<TreeEntry>, e: TreeEntry)
    ensures
        kept_entries(pats, es).contains(e) <==> (es.contains(e) && kept(pats, e.path@)),
    decreases es.len(),
{
    if es.len() > 0 {
        let rest = es.drop_last();
        lemma_kept_entries_exact(pats, rest, e);
        assert(es =~= rest.push(es.last()));
        if es.contains(e) && e != es.last() {
            let k = choose|k: int| 0 <= k < es.len() && es[k] == e;
            assert(rest[k] == e);
        }
        if rest.contains(e) {
            let k = choose|k: int| 0 <= k < rest.len() && rest[k] == e;
            assert(es[k] == e);
        }
        if kept(pats, es.last().path@) {
            let kr = kept_entries(pats, rest);
            assert(kept_entries(pats, es) == kr.push(es.last()));
            if kr.push(es.last()).contains(e) && e != es.last() {
                let k = choose|k: int| 0 <= k < kr.len() + 1 && kr.push(es.last())[k] == e;
                assert(kr[k] == e);
            }
            if kr.contains(e) {
                let k = choose|k: int| 0 <= k < kr.len() && kr[k] == e;
                assert(kr.push(es.last())[k] == e);
            }
            if e == es.last() {
                assert(kr.push(es.last())[kr.len() as int] == e);
                assert(es[es.len() - 1] == e);
            }
        } else {
            if e == es.last() {
                assert(es[es.len() - 1] == e);
            }
        }
    }
}

/// Below a directory that a pattern matches, no path is kept.
pub proof fn lemma_nothing_kept_below_excluded(
    pats: Seq<Seq<char>>,
    dir: Seq<char>,
    path: Seq<char>,
)
    requires
        excluded(pats, dir),
        dir.len() < path.len(),
        path.subrange(0, dir.len() as int) == dir,
        path[dir.len() as int] == '/',
    ensures
        !kept(pats, path),
{
    assert(is_boundary(path, dir.len() as int));
}

/// One step of an upload: a directory to create, or a file to copy.
#[derive(Clone, Debug)]
pub struct UploadStep {
    pub local_path: String,
    pub remote_path: String,
    pub is_dir: bool,
}

/// Where a new snapshot goes and what is written there, in walk order (a
/// directory always before what lies below it).
#[derive(Clone, Debug)]
pub struct UploadPlan {
    pub app_dir: String,
    pub snapshot_dir: String,
    pub steps: Vec<UploadStep>,
    pub total_files: usize,
}

/// Whether `st` copies or creates entry `e` of a local tree rooted at
/// `local_root` into snapshot directory `snapshot_dir`.
pub open spec fn step_for(
    st: UploadStep,
    e: TreeEntry,
    local_root: Seq<char>,
    snapshot_dir: Seq<char>,
) -> bool {
    &&& st.local_path@ == join_spec(local_root, e.path@)
    &&& st.remote_path@ == join_spec(snapshot_dir, e.path@)
    &&& st.is_dir == e.is_dir
}

/// The plan to write the kept entries `kept` of the tree at `local_root` as
/// snapshot `snapshot_name` of application `app_id`, under `namespace_root`.
pub fn plan_upload(
    namespace_root: &str,
    app_id: &str,
    snapshot_name: &str,
    local_root: &str,
    kept: &Vec<TreeEntry>,
) -> (r: UploadPlan)
    ensures
        r.app_dir@ == join_spec(namespace_root@, app_id@),
        r.snapshot_dir@ == join_spec(r.app_dir@, snapshot_name@),
        r.steps@.len() == kept@.len(),
        forall|i: int|
            0 <= i < kept@.len() ==> step_for(
                #[trigger] r.steps@[i],
                kept@[i],
                local_root@,
                r.snapshot_dir@,
            ),
        r.total_files == file_count(kept@),
{
    let app_dir = join_path(namespace_root, app_id);
    let snapshot_dir = join_path(app_dir.as_str(), snapshot_name);
    let mut steps: Vec<UploadStep> = Vec::new();
    let mut files: usize = 0;
    let mut i: usize = 0;
    while i < kept.len()
        invariant
            i <= kept@.len(),
            steps@.len() == i,
            forall|j: int|
                0 <= j < i ==> step_for(#[trigger] steps@[j], kept@[j], local_root@, snapshot_dir@),
            files == file_count(kept@.subrange(0, i as int)),
            files <= i,
        decreases kept@.len() - i,
    {
        proof {
            assert(kept@.subrange(0, i + 1).drop_last() =~= kept@.subrange(0, i as int));
        }
        let e = &kept[i];
        let st = UploadStep {
            local_path: join_path(local_root, e.path.as_str()),
            remote_path: join_path(snapshot_dir.as_str(), e.path.as_str()),
            is_dir: e.is_dir,
        };
        steps.push(st);
        if !e.is_dir {
            files += 1;
        }
        i += 1;
    }
    assert(kept@.subrange(0, kept@.len() as int) =~= kept@);
    UploadPlan { app_dir, snapshot_dir, steps, total_files: files }
}


/// With no patterns a walk keeps every entry, in order: a safety snapshot
/// captures the whole local tree.
pub proof fn lemma_no_rules_keep_all_entries(es: Seq<TreeEntry>)
    ensures
        kept_entries(Seq::empty(), es) == es,
    decreases es.len(),
{
    if es.len() > 0 {
        lemma_no_rules_keep_all_entries(es.drop_last());
        lemma_no_rules_keep_everything(es.last().path@);
        assert(es.drop_last().push(es.last()) =~= es);
    }
}

} // verus!
