use vstd::prelude::*;

use crate::path::{copy_path, parent, parent_of, path_view, paths_view, same_path, PathSpec};

verus! {

/// The files that share one folder, in the order they arrived.
pub struct FolderGroup {
    /// The folder, relative to the source directory; empty for the source
    /// directory itself.
    pub folder: Vec<String>,
    pub files: Vec<Vec<String>>,
}

impl View for FolderGroup {
    type V = (PathSpec, Seq<PathSpec>);

    open spec fn view(&self) -> (PathSpec, Seq<PathSpec>) {
        (path_view(self.folder), paths_view(self.files))
    }
}

/// The views of a list of groups.
pub open spec fn groups_view(gs: Vec<FolderGroup>) -> Seq<(PathSpec, Seq<PathSpec>)> {
    gs@.map_values(|g: FolderGroup| g@)
}

/// The files of `files` whose folder is `folder`, in their order.
pub open spec fn files_in(files: Seq<PathSpec>, folder: PathSpec) -> Seq<PathSpec>
    decreases files.len(),
{
    if files.len() == 0 {
        Seq::empty()
    } else {
        let rest = files_in(files.drop_last(), folder);
        if parent(files.last()) == folder {
            rest.push(files.last())
        } else {
            rest
        }
    }
}

/// `gs` partitions `files` by folder: one group for each folder that holds a
/// file, each with the files of that folder in their order.
pub open spec fn is_grouping(files: Seq<PathSpec>, gs: Seq<(PathSpec, Seq<PathSpec>)>) -> bool {
    &&& forall|i: int, j: int| 0 <= i < j < gs.len() ==> gs[i].0 != gs[j].0
    &&& forall|i: int| 0 <= i < gs.len() ==> #[trigger] gs[i].1 == files_in(files, gs[i].0)
    &&& forall|i: int| 0 <= i < gs.len() ==> #[trigger] gs[i].1.len() > 0
    &&& forall|j: int|
        0 <= j < files.len() ==> exists|i: int| 0 <= i < gs.len() && gs[i].0 == parent(#[trigger] files[j])
}

proof fn lemma_files_in_step(files: Seq<PathSpec>, k: int)
    requires
        0 <= k < files.len(),
    ensures
        forall|folder: PathSpec|
            #[trigger] files_in(files.subrange(0, k + 1), folder) == if parent(files[k]) == folder {
                files_in(files.subrange(0, k), folder).push(files[k])
            } else {
                files_in(files.subrange(0, k), folder)
            },
{
    assert(files.subrange(0, k + 1).drop_last() =~= files.subrange(0, k));
}

/// The place of the group of `folder` among `groups`, if there is one.
fn find_group(groups: &Vec<FolderGroup>, folder: &Vec<String>) -> (r: Option<usize>)
    ensures
        r matches Some(g) ==> g < groups@.len() && groups_view(*groups)[g as int].0 == path_view(
            *folder,
        ),
        r is None ==> forall|i: int|
            0 <= i < groups@.len() ==> #[trigger] groups_view(*groups)[i].0 != path_view(*folder),
{
    let mut g: usize = 0;
    while g < groups.len()
        invariant
            g <= groups@.len(),
            forall|i: int| 0 <= i < g ==> #[trigger] groups_view(*groups)[i].0 != path_view(*folder),
        decreases groups@.len() - g,
    {
        if same_path(&groups[g].folder, folder) {
            return Some(g);
        }
        g = g + 1;
    }
    None
}

/// Sorts `files` into groups by folder; within a group the files keep their
/// order.
pub fn group_files_by_folder(files: &Vec<Vec<String>>) -> (r: Vec<FolderGroup>)
    ensures
        is_grouping(paths_view(*files), groups_view(r)),
{
    let mut groups: Vec<FolderGroup> = Vec::new();
    let mut k: usize = 0;
    while k < files.len()
        invariant
            k <= files@.len(),
            is_grouping(paths_view(*files).subrange(0, k as int), groups_view(groups)),
        decreases files@.len() - k,
    {
        let ghost fs = paths_view(*files);
        let ghost before = groups_view(groups);
        proof {
            lemma_files_in_step(fs, k as int);
        }
        let key = parent_of(&files[k]);
        let found = find_group(&groups, &key);
        let f = copy_path(&files[k]);
        if let Some(g) = found {
            let mut grp = groups.remove(g);
            let ghost gv = grp@;
            grp.files.push(f);
            assert(paths_view(grp.files) =~= gv.1.push(path_view(f)));
            groups.insert(g, grp);
            assert(groups_view(groups) =~= before.update(g as int, (gv.0, gv.1.push(fs[k as int]))));
            assert forall|j: int| 0 <= j < k + 1 implies exists|i: int|
                0 <= i < groups_view(groups).len() && groups_view(groups)[i].0 == parent(
                    #[trigger] fs.subrange(0, k + 1)[j],
                ) by {
                if j < k {
                    assert(fs.subrange(0, k + 1)[j] == fs.subrange(0, k as int)[j]);
                    let i = choose|i: int|
                        0 <= i < before.len() && before[i].0 == parent(
                            fs.subrange(0, k as int)[j],
                        );
                    assert(groups_view(groups)[i].0 == before[i].0);
                } else {
                    assert(groups_view(groups)[g as int].0 == parent(fs.subrange(0, k + 1)[j]));
                }
            }
        } else {
            let mut list: Vec<Vec<String>> = Vec::new();
            list.push(f);
            let grp = FolderGroup { folder: key, files: list };
            assert(paths_view(grp.files) =~= seq![fs[k as int]]);
            assert(files_in(fs.subrange(0, k as int), path_view(key)) =~= Seq::<PathSpec>::empty())
                by {
                if files_in(fs.subrange(0, k as int), path_view(key)).len() > 0 {
                    lemma_files_in_member(fs.subrange(0, k as int), path_view(key));
                    let j = choose|j: int|
                        0 <= j < k && parent(fs.subrange(0, k as int)[j]) == path_view(key);
                    let i = choose|i: int|
                        0 <= i < before.len() && before[i].0 == parent(
                            fs.subrange(0, k as int)[j],
                        );
                    assert(before[i].0 != path_view(key));
                }
            }
            groups.push(grp);
            assert(groups_view(groups) =~= before.push((path_view(key), seq![fs[k as int]])));
            assert forall|j: int| 0 <= j < k + 1 implies exists|i: int|
                0 <= i < groups_view(groups).len() && groups_view(groups)[i].0 == parent(
                    #[trigger] fs.subrange(0, k + 1)[j],
                ) by {
                if j < k {
                    assert(fs.subrange(0, k + 1)[j] == fs.subrange(0, k as int)[j]);
                    let i = choose|i: int|
                        0 <= i < before.len() && before[i].0 == parent(
                            fs.subrange(0, k as int)[j],
                        );
                    assert(groups_view(groups)[i].0 == before[i].0);
                } else {
                    assert(groups_view(groups)[before.len() as int].0 == parent(
                        fs.subrange(0, k + 1)[j],
                    ));
                }
            }
        }
        k = k + 1;
    }
    assert(paths_view(*files).subrange(0, k as int) =~= paths_view(*files));
    groups
}

/// A folder with files in `files` holds one of them.
pub(crate) proof fn lemma_files_in_member(files: Seq<PathSpec>, folder: PathSpec)
    requires
        files_in(files, folder).len() > 0,
    ensures
        exists|j: int| 0 <= j < files.len() && parent(files[j]) == folder,
    decreases files.len(),
{
    if parent(files.last()) != folder {
        lemma_files_in_member(files.drop_last(), folder);
        let j = choose|j: int|
            0 <= j < files.drop_last().len() && parent(files.drop_last()[j]) == folder;
        assert(files[j] == files.drop_last()[j]);
    } else {
        assert(parent(files[files.len() - 1]) == folder);
    }
}

} // verus!
