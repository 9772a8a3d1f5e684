use vstd::prelude::*;

use crate::path::{paths_view, PathSpec};
use crate::playlist::{contents, m3u_name, m3u_text, names_distinct, Playlist};
use crate::GenerateError;

verus! {

/// The files of the source directory, as a map from file name to what the
/// file holds.
pub type Dir = Map<Seq<char>, Seq<char>>;

/// What came of opening a playlist's file for writing. Without overwrite the
/// file is opened only where it does not exist yet, so a file created since
/// it was looked for is still left alone.
pub enum OpenOutcome {
    /// The file was opened and is empty.
    Opened,
    /// The file exists and was left alone.
    AlreadyExists,
    /// The file could not be opened or written.
    Failed,
}

/// Whether a playlist's file is written, given whether it exists already.
pub open spec fn is_written(exists: bool, overwrite: bool) -> bool {
    overwrite || !exists
}

/// `dir` after writing `text` to the file `name`.
pub open spec fn write_file(dir: Dir, name: Seq<char>, text: Seq<char>, overwrite: bool) -> Dir {
    if is_written(dir.contains_key(name), overwrite) {
        dir.insert(name, text)
    } else {
        dir
    }
}

/// `dir` after writing each of `files`, a name and a text, in turn.
pub open spec fn write_all(dir: Dir, files: Seq<(Seq<char>, Seq<char>)>, overwrite: bool) -> Dir
    decreases files.len(),
{
    if files.len() == 0 {
        dir
    } else {
        let d = write_all(dir, files.drop_last(), overwrite);
        write_file(d, files.last().0, files.last().1, overwrite)
    }
}

/// The file of each playlist: its name and its text.
pub open spec fn playlist_files(ps: Seq<(Seq<char>, Seq<PathSpec>)>) -> Seq<(Seq<char>, Seq<char>)> {
    ps.map_values(|p: (Seq<char>, Seq<PathSpec>)| (m3u_name(p.0), m3u_text(contents(p.1))))
}

/// What to do with a playlist's file.
pub enum WriteAction {
    /// Create or truncate the file and write this text to it.
    Write(String),
    /// Leave the file as it is.
    Skip,
}

/// `dir` after `action` on the file `name`.
pub open spec fn apply_action(dir: Dir, name: Seq<char>, action: WriteAction) -> Dir {
    match action {
        WriteAction::Write(t) => dir.insert(name, t@),
        WriteAction::Skip => dir,
    }
}

/// Decides what to do with the playlist's file, given whether it `exists`
/// already: a new file is always written, an existing one only with
/// `overwrite`. The action has on any directory the effect of `write_file`.
pub fn plan_write(playlist: &Playlist, exists: bool, overwrite: bool) -> (r: WriteAction)
    ensures
        r is Write <==> is_written(exists, overwrite),
        r matches WriteAction::Write(t) ==> t@ == m3u_text(contents(paths_view(playlist.files))),
        forall|dir: Dir|
            dir.contains_key(m3u_name(playlist.name@)) == exists ==> #[trigger] write_file(
                dir,
                m3u_name(playlist.name@),
                m3u_text(contents(paths_view(playlist.files))),
                overwrite,
            ) == apply_action(dir, m3u_name(playlist.name@), r),
{
    if overwrite || !exists {
        WriteAction::Write(playlist.to_text())
    } else {
        WriteAction::Skip
    }
}

/// Decides what to do once the playlist's file was opened: write to it, leave
/// a file that turned out to exist alone, or fail naming the playlist.
pub fn write_step(playlist: &Playlist, outcome: OpenOutcome) -> (r: Result<bool, GenerateError>)
    ensures
        outcome is Opened <==> r == Ok::<bool, GenerateError>(true),
        outcome is AlreadyExists <==> r == Ok::<bool, GenerateError>(false),
        outcome is Failed <==> r is Err,
        r matches Err(e) ==> e matches GenerateError::Write { name } && name@ == playlist.name@,
{
    match outcome {
        OpenOutcome::Opened => Ok(true),
        OpenOutcome::AlreadyExists => Ok(false),
        OpenOutcome::Failed => Err(GenerateError::Write { name: playlist.name.clone() }),
    }
}

proof fn lemma_write_all_keys(dir: Dir, files: Seq<(Seq<char>, Seq<char>)>, overwrite: bool)
    ensures
        forall|k: Seq<char>| dir.contains_key(k) ==> #[trigger] write_all(dir, files, overwrite).contains_key(k),
        forall|i: int| 0 <= i < files.len() ==> write_all(dir, files, overwrite).contains_key(#[trigger] files[i].0),
    decreases files.len(),
{
    if files.len() > 0 {
        lemma_write_all_keys(dir, files.drop_last(), overwrite);
        assert forall|k: Seq<char>| dir.contains_key(k) implies #[trigger] write_all(dir, files, overwrite).contains_key(k) by {
            assert(write_all(dir, files.drop_last(), overwrite).contains_key(k));
        }
        assert forall|i: int| 0 <= i < files.len() implies write_all(dir, files, overwrite).contains_key(#[trigger] files[i].0) by {
            if i < files.len() - 1 {
                assert(files.drop_last()[i] == files[i]);
            }
        }
    }
}

proof fn lemma_write_all_present(dir: Dir, files: Seq<(Seq<char>, Seq<char>)>)
    requires
        forall|i: int| 0 <= i < files.len() ==> dir.contains_key(#[trigger] files[i].0),
    ensures
        write_all(dir, files, false) == dir,
    decreases files.len(),
{
    if files.len() > 0 {
        assert forall|i: int| 0 <= i < files.drop_last().len() implies dir.contains_key(#[trigger] files.drop_last()[i].0) by {
            assert(files.drop_last()[i] == files[i]);
        }
        lemma_write_all_present(dir, files.drop_last());
        assert(dir.contains_key(files[files.len() - 1].0));
    }
}

/// Writing the same files a second time without overwrite changes nothing:
/// every file exists after the first run.
pub proof fn lemma_rerun_without_overwrite(dir: Dir, ps: Seq<(Seq<char>, Seq<PathSpec>)>)
    ensures
        write_all(write_all(dir, playlist_files(ps), false), playlist_files(ps), false)
            == write_all(dir, playlist_files(ps), false),
{
    let files = playlist_files(ps);
    lemma_write_all_keys(dir, files, false);
    lemma_write_all_present(write_all(dir, files, false), files);
}

proof fn lemma_write_all_distinct(dir: Dir, files: Seq<(Seq<char>, Seq<char>)>, overwrite: bool)
    requires
        forall|i: int, j: int| 0 <= i < j < files.len() ==> files[i].0 != files[j].0,
    ensures
        forall|i: int|
            0 <= i < files.len() && is_written(dir.contains_key(#[trigger] files[i].0), overwrite) ==> write_all(dir, files, overwrite)[files[i].0] == files[i].1,
        forall|k: Seq<char>|
            dir.contains_key(k) && !is_written(dir.contains_key(k), overwrite) ==> #[trigger] write_all(dir, files, overwrite)[k] == dir[k],
    decreases files.len(),
{
    if files.len() > 0 {
        let init = files.drop_last();
        lemma_write_all_distinct(dir, init, overwrite);
        lemma_write_all_keys(dir, init, overwrite);
        let d = write_all(dir, init, overwrite);
        let last = files.last();
        assert forall|i: int|
            0 <= i < files.len() && is_written(dir.contains_key(#[trigger] files[i].0), overwrite) implies write_all(dir, files, overwrite)[files[i].0] == files[i].1 by {
            if i < files.len() - 1 {
                assert(init[i] == files[i]);
                assert(files[i].0 != last.0);
            } else {
                if !overwrite {
                    assert(!d.contains_key(last.0)) by {
                        if d.contains_key(last.0) {
                            lemma_write_all_origin(dir, init, overwrite, last.0);
                            let j = choose|j: int| 0 <= j < init.len() && init[j].0 == last.0;
                            assert(files[j].0 == last.0);
                        }
                    }
                }
            }
        }
        assert forall|k: Seq<char>|
            dir.contains_key(k) && !is_written(dir.contains_key(k), overwrite) implies #[trigger] write_all(dir, files, overwrite)[k] == dir[k] by {
            assert(d.contains_key(k));
        }
    }
}

proof fn lemma_write_all_origin(dir: Dir, files: Seq<(Seq<char>, Seq<char>)>, overwrite: bool, k: Seq<char>)
    requires
        write_all(dir, files, overwrite).contains_key(k),
        !dir.contains_key(k),
    ensures
        exists|j: int| 0 <= j < files.len() && files[j].0 == k,
    decreases files.len(),
{
    if files.len() > 0 && files.last().0 != k {
        lemma_write_all_origin(dir, files.drop_last(), overwrite, k);
        let j = choose|j: int| 0 <= j < files.drop_last().len() && files.drop_last()[j].0 == k;
        assert(files[j].0 == k);
    } else if files.len() > 0 {
        assert(files[files.len() - 1].0 == k);
    }
}

proof fn lemma_file_names_distinct(ps: Seq<(Seq<char>, Seq<PathSpec>)>)
    requires
        names_distinct(ps),
    ensures
        forall|i: int, j: int|
            0 <= i < j < playlist_files(ps).len() ==> playlist_files(ps)[i].0 != playlist_files(ps)[j].0,
{
    assert forall|i: int, j: int|
        0 <= i < j < playlist_files(ps).len() implies playlist_files(ps)[i].0 != playlist_files(ps)[j].0 by {
        assert(playlist_files(ps)[i].0 == m3u_name(ps[i].0));
        assert(playlist_files(ps)[j].0 == m3u_name(ps[j].0));
        assert(ps[i].0 != ps[j].0);
        if m3u_name(ps[i].0) == m3u_name(ps[j].0) {
            assert(ps[i].0.len() == ps[j].0.len());
            assert(ps[i].0 =~= m3u_name(ps[i].0).subrange(0, ps[i].0.len() as int));
            assert(ps[j].0 =~= m3u_name(ps[j].0).subrange(0, ps[j].0.len() as int));
        }
    }
}

/// With overwrite, whatever the directory held before, each playlist's file
/// holds the playlist's text afterwards.
pub proof fn lemma_overwrite_last_wins(dir: Dir, ps: Seq<(Seq<char>, Seq<PathSpec>)>)
    requires
        names_distinct(ps),
    ensures
        forall|i: int|
            0 <= i < ps.len() ==> #[trigger] write_all(dir, playlist_files(ps), true)[m3u_name(ps[i].0)]
                == m3u_text(contents(ps[i].1)),
{
    let files = playlist_files(ps);
    lemma_file_names_distinct(ps);
    lemma_write_all_distinct(dir, files, true);
    assert forall|i: int| 0 <= i < ps.len() implies #[trigger] write_all(dir, files, true)[m3u_name(ps[i].0)]
        == m3u_text(contents(ps[i].1)) by {
        assert(files[i].0 == m3u_name(ps[i].0));
    }
}

/// Without overwrite, a file that existed keeps what it held, and each
/// playlist whose file did not exist is written.
pub proof fn lemma_keep_existing(dir: Dir, ps: Seq<(Seq<char>, Seq<PathSpec>)>)
    requires
        names_distinct(ps),
    ensures
        forall|k: Seq<char>| dir.contains_key(k) ==> #[trigger] write_all(dir, playlist_files(ps), false)[k] == dir[k],
        forall|i: int|
            0 <= i < ps.len() && !dir.contains_key(m3u_name(ps[i].0)) ==> #[trigger] write_all(dir, playlist_files(ps), false)[m3u_name(ps[i].0)]
                == m3u_text(contents(ps[i].1)),
{
    let files = playlist_files(ps);
    lemma_file_names_distinct(ps);
    lemma_write_all_distinct(dir, files, false);
    assert forall|i: int|
        0 <= i < ps.len() && !dir.contains_key(m3u_name(ps[i].0)) implies #[trigger] write_all(dir, files, false)[m3u_name(ps[i].0)]
            == m3u_text(contents(ps[i].1)) by {
        assert(files[i].0 == m3u_name(ps[i].0));
    }
}

} // verus!
