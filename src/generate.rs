use vstd::prelude::*;

use crate::discover::{find_cue_files, make_relative_paths, relative, selected};
use crate::group::{group_files_by_folder, FolderGroup, groups_view, is_grouping, lemma_files_in_member};
use crate::path::{has_prefix, join, names_a_file, path_to_string, parent, path_view, paths_view, PathSpec};
use crate::playlist::{
    find_name_collision, make_playlists, names_distinct, playlist_name, playlist_of,
    playlists_view, Playlist,
};
use crate::GenerateError;

verus! {

/// Two files of `files` lie in different folders whose playlists would have
/// the same name.
pub open spec fn has_collision(source: PathSpec, files: Seq<PathSpec>) -> bool {
    exists|a: int, b: int|
        0 <= a < files.len() && 0 <= b < files.len() && parent(#[trigger] files[a]) != parent(
            #[trigger] files[b],
        ) && playlist_name(source, parent(files[a])) == playlist_name(source, parent(files[b]))
}

/// `ps` holds one playlist for each folder of `files`, in some order.
pub open spec fn is_plan(
    source: PathSpec,
    files: Seq<PathSpec>,
    ps: Seq<(Seq<char>, Seq<PathSpec>)>,
) -> bool {
    exists|gs: Seq<(PathSpec, Seq<PathSpec>)>|
        #[trigger] is_grouping(files, gs) && ps == gs.map_values(
            |g: (PathSpec, Seq<PathSpec>)| playlist_of(source, g),
        )
}

proof fn lemma_collision_iff(source: PathSpec, files: Seq<PathSpec>, gs: Seq<(PathSpec, Seq<PathSpec>)>)
    requires
        is_grouping(files, gs),
    ensures
        names_distinct(gs.map_values(|g: (PathSpec, Seq<PathSpec>)| playlist_of(source, g)))
            <==> !has_collision(source, files),
{
    let ps = gs.map_values(|g: (PathSpec, Seq<PathSpec>)| playlist_of(source, g));
    if !names_distinct(ps) {
        let (i, j) = choose|i: int, j: int| 0 <= i < j < ps.len() && ps[i].0 == ps[j].0;
        assert(gs[i].1.len() > 0 && gs[j].1.len() > 0);
        lemma_files_in_member(files, gs[i].0);
        lemma_files_in_member(files, gs[j].0);
        let a = choose|a: int| 0 <= a < files.len() && parent(files[a]) == gs[i].0;
        let b = choose|b: int| 0 <= b < files.len() && parent(files[b]) == gs[j].0;
        assert(parent(files[a]) != parent(files[b]));
        assert(has_collision(source, files));
    }
    if has_collision(source, files) {
        let (a, b) = choose|a: int, b: int|
            0 <= a < files.len() && 0 <= b < files.len() && parent(#[trigger] files[a]) != parent(
                #[trigger] files[b],
            ) && playlist_name(source, parent(files[a])) == playlist_name(
                source,
                parent(files[b]),
            );
        let i = choose|i: int| 0 <= i < gs.len() && gs[i].0 == parent(#[trigger] files[a]);
        let j = choose|j: int| 0 <= j < gs.len() && gs[j].0 == parent(#[trigger] files[b]);
        assert(ps[i].0 == ps[j].0 && i != j);
    }
}

/// Each group's folder as written.
fn folder_names(groups: &Vec<FolderGroup>) -> (r: Vec<String>)
    ensures
        r@.len() == groups@.len(),
        forall|k: int| 0 <= k < r@.len() ==> #[trigger] r@[k]@ == join(groups_view(*groups)[k].0),
{
    let mut r: Vec<String> = Vec::new();
    let mut k: usize = 0;
    while k < groups.len()
        invariant
            k <= groups@.len(),
            r@.len() == k,
            forall|m: int| 0 <= m < k ==> #[trigger] r@[m]@ == join(groups_view(*groups)[m].0),
        decreases groups@.len() - k,
    {
        r.push(path_to_string(&groups[k].folder));
        k = k + 1;
    }
    r
}

/// Plans the playlists of the source directory `source` from the entries of
/// its walk, `walked`, which is `None` where the directory could not be
/// opened. The walk reaches past the directory only where `recursive`.
pub fn generate_playlists(
    source: &Vec<String>,
    walked: Option<Vec<Vec<String>>>,
    recursive: bool,
) -> (r: Result<Vec<Playlist>, GenerateError>)
    requires
        names_a_file(path_view(*source)),
    ensures
        walked is None ==> r == Err::<Vec<Playlist>, GenerateError>(GenerateError::Discovery),
        walked matches Some(es) ==> {
            let cue = selected(paths_view(es), source@.len(), recursive);
            let rel = relative(cue, source@.len());
            &&& (r == Err::<Vec<Playlist>, GenerateError>(GenerateError::Path)) <==> exists|i: int|
                0 <= i < cue.len() && !has_prefix(#[trigger] cue[i], path_view(*source))
            &&& r is Ok <==> (forall|i: int|
                0 <= i < cue.len() ==> has_prefix(#[trigger] cue[i], path_view(*source)))
                && !has_collision(path_view(*source), rel)
            &&& r matches Err(e) ==> e is Path || e is NameCollision
            &&& r matches Ok(ps) ==> is_plan(path_view(*source), rel, playlists_view(ps))
                && names_distinct(playlists_view(ps))
            &&& r matches Err(GenerateError::NameCollision { name, first, second }) ==> exists|
                a: int,
                b: int,
            |
                0 <= a < rel.len() && 0 <= b < rel.len() && parent(#[trigger] rel[a]) != parent(
                    #[trigger] rel[b],
                ) && join(parent(rel[a])) == first@ && join(parent(rel[b])) == second@
                    && playlist_name(path_view(*source), parent(rel[a])) == name@ && playlist_name(
                    path_view(*source),
                    parent(rel[b]),
                ) == name@
        },
{
    let entries = match walked {
        Some(es) => es,
        None => { return Err(GenerateError::Discovery); },
    };
    let cue_files = find_cue_files(source, &entries, recursive);
    let relative_files = match make_relative_paths(source, &cue_files) {
        Ok(v) => v,
        Err(e) => { return Err(e); },
    };
    let groups = group_files_by_folder(&relative_files);
    let ghost gs = groups_view(groups);
    let ghost rel = paths_view(relative_files);
    let folders = folder_names(&groups);
    let playlists = make_playlists(source, groups);
    proof {
        lemma_collision_iff(path_view(*source), rel, gs);
        assert(is_grouping(rel, gs));
    }
    match find_name_collision(&playlists) {
        Some((i, j)) => {
            let name = playlists[i].name.clone();
            let first = folders[i].clone();
            let second = folders[j].clone();
            proof {
                let i = i as int;
                let j = j as int;
                assert(gs[i].1.len() > 0 && gs[j].1.len() > 0);
                lemma_files_in_member(rel, gs[i].0);
                lemma_files_in_member(rel, gs[j].0);
                let a = choose|a: int| 0 <= a < rel.len() && parent(rel[a]) == gs[i].0;
                let b = choose|b: int| 0 <= b < rel.len() && parent(rel[b]) == gs[j].0;
                assert(parent(rel[a]) != parent(rel[b]));
            }
            Err(GenerateError::NameCollision { name, first, second })
        },
        None => Ok(playlists),
    }
}

} // verus!
