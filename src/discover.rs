use vstd::prelude::*;

use crate::path::{
    copy_path, cue_suffix, ends_with, has_prefix, is_cue_name, path_view, paths_view, strip_prefix,
    PathSpec,
};
use crate::GenerateError;

verus! {

/// Whether a walked entry is kept: it lies below the source directory, whose
/// path has `root_len` components, its last component ends with `.cue`, and
/// unless the walk is recursive it lies directly in the source directory.
pub open spec fn is_selected(e: PathSpec, root_len: nat, recursive: bool) -> bool {
    &&& e.len() > root_len
    &&& ends_with(e.last(), cue_suffix())
    &&& recursive || e.len() <= root_len + 1
}

/// The kept entries, in the order of the walk.
pub open spec fn selected(es: Seq<PathSpec>, root_len: nat, recursive: bool) -> Seq<PathSpec>
    decreases es.len(),
{
    if es.len() == 0 {
        Seq::empty()
    } else {
        let rest = selected(es.drop_last(), root_len, recursive);
        if is_selected(es.last(), root_len, recursive) {
            rest.push(es.last())
        } else {
            rest
        }
    }
}

/// The paths relative to a source directory of `root_len` components.
pub open spec fn relative(es: Seq<PathSpec>, root_len: nat) -> Seq<PathSpec> {
    es.map_values(|e: PathSpec| e.skip(root_len as int))
}

/// Picks the index files out of the entries of a walk of `source`, which
/// reach past the source directory only where the walk is `recursive`.
pub fn find_cue_files(source: &Vec<String>, entries: &Vec<Vec<String>>, recursive: bool) -> (r: Vec<
    Vec<String>,
>)
    ensures
        paths_view(r) == selected(paths_view(*entries), source@.len(), recursive),
{
    let mut r: Vec<Vec<String>> = Vec::new();
    let mut i: usize = 0;
    while i < entries.len()
        invariant
            i <= entries@.len(),
            paths_view(r) == selected(
                paths_view(*entries).subrange(0, i as int),
                source@.len(),
                recursive,
            ),
        decreases entries@.len() - i,
    {
        let ghost es = paths_view(*entries);
        assert(es.subrange(0, i + 1).drop_last() =~= es.subrange(0, i as int));
        let e = &entries[i];
        let n = e.len();
        let keep = n > source.len() && is_cue_name(&e[n - 1]) && (recursive || n - 1 <= source.len());
        if keep {
            let c = copy_path(e);
            r.push(c);
            assert(paths_view(r) =~= selected(es.subrange(0, i as int), source@.len(), recursive).push(
                es[i as int],
            ));
        }
        i = i + 1;
    }
    assert(paths_view(*entries).subrange(0, i as int) =~= paths_view(*entries));
    r
}

/// Rewrites each path relative to `source`; fails where one does not lie
/// under it.
pub fn make_relative_paths(source: &Vec<String>, absolute_paths: &Vec<Vec<String>>) -> (r: Result<
    Vec<Vec<String>>,
    GenerateError,
>)
    ensures
        r is Ok <==> forall|i: int|
            0 <= i < absolute_paths@.len() ==> has_prefix(
                #[trigger] paths_view(*absolute_paths)[i],
                path_view(*source),
            ),
        r matches Ok(v) ==> paths_view(v) == relative(paths_view(*absolute_paths), source@.len()),
        r matches Err(e) ==> e == GenerateError::Path,
{
    let mut r: Vec<Vec<String>> = Vec::new();
    let mut i: usize = 0;
    while i < absolute_paths.len()
        invariant
            i <= absolute_paths@.len(),
            forall|j: int|
                0 <= j < i ==> has_prefix(
                    #[trigger] paths_view(*absolute_paths)[j],
                    path_view(*source),
                ),
            paths_view(r) =~= relative(paths_view(*absolute_paths), source@.len()).subrange(
                0,
                i as int,
            ),
        decreases absolute_paths@.len() - i,
    {
        match strip_prefix(&absolute_paths[i], source) {
            Some(q) => {
                let ghost before = paths_view(r);
                r.push(q);
                assert(paths_view(r) =~= before.push(path_view(q)));
            },
            None => {
                assert(!has_prefix(paths_view(*absolute_paths)[i as int], path_view(*source)));
                return Err(GenerateError::Path);
            },
        }
        i = i + 1;
    }
    assert(relative(paths_view(*absolute_paths), source@.len()) =~= relative(
        paths_view(*absolute_paths),
        source@.len(),
    ).subrange(0, i as int));
    Ok(r)
}

} // verus!
