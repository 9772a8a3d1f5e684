use vstd::prelude::*;
use vstd::string::*;

use crate::group::{groups_view, FolderGroup};
use crate::path::{join, names_a_file, path_to_string, path_view, paths_view, PathSpec};

verus! {

/// A named list of index files to be loaded as one unit.
pub struct Playlist {
    pub name: String,
    pub files: Vec<Vec<String>>,
}

impl View for Playlist {
    type V = (Seq<char>, Seq<PathSpec>);

    open spec fn view(&self) -> (Seq<char>, Seq<PathSpec>) {
        (self.name@, paths_view(self.files))
    }
}

/// The file name of the playlist called `name`.
pub open spec fn m3u_name(name: Seq<char>) -> Seq<char> {
    name + seq!['.', 'm', '3', 'u']
}

/// The lines of a playlist: its files as written paths.
pub open spec fn contents(files: Seq<PathSpec>) -> Seq<Seq<char>> {
    files.map_values(|f: PathSpec| join(f))
}

/// A playlist file: each line followed by one newline.
pub open spec fn m3u_text(lines: Seq<Seq<char>>) -> Seq<char>
    decreases lines.len(),
{
    if lines.len() == 0 {
        Seq::empty()
    } else {
        m3u_text(lines.drop_last()) + lines.last() + seq!['\n']
    }
}

/// A playlist file ends with its last line and a single newline; where that
/// line is not empty and holds no newline, no blank line precedes the end.
pub proof fn lemma_m3u_text_ends(lines: Seq<Seq<char>>)
    requires
        lines.len() > 0,
    ensures
        m3u_text(lines).len() >= lines.last().len() + 1,
        m3u_text(lines).subrange(
            m3u_text(lines).len() - lines.last().len() - 1,
            m3u_text(lines).len() as int,
        ) == lines.last() + seq!['\n'],
        lines.last().len() > 0 && !lines.last().contains('\n') ==> m3u_text(lines)[m3u_text(
            lines,
        ).len() - 2] != '\n',
{
    let t = m3u_text(lines);
    let l = lines.last();
    let head = m3u_text(lines.drop_last());
    assert(t == head + l + seq!['\n']);
    assert(t.subrange(t.len() - l.len() - 1, t.len() as int) =~= l + seq!['\n']);
    if l.len() > 0 {
        assert(t[t.len() - 2] == l[l.len() - 1]);
    }
}

/// A line that a playlist file can hold: not empty and without a newline.
pub open spec fn is_line(l: Seq<char>) -> bool {
    l.len() > 0 && !l.contains('\n')
}

/// A playlist file of such lines holds no blank line: it does not start with
/// a newline, and no two newlines follow each other.
pub proof fn lemma_m3u_text_no_blank_line(lines: Seq<Seq<char>>)
    requires
        forall|i: int| 0 <= i < lines.len() ==> is_line(#[trigger] lines[i]),
    ensures
        m3u_text(lines).len() > 0 ==> m3u_text(lines)[0] != '\n',
        forall|k: int|
            0 <= k < m3u_text(lines).len() - 1 ==> !(#[trigger] m3u_text(lines)[k] == '\n'
                && m3u_text(lines)[k + 1] == '\n'),
    decreases lines.len(),
{
    if lines.len() > 0 {
        let init = lines.drop_last();
        assert forall|i: int| 0 <= i < init.len() implies is_line(#[trigger] init[i]) by {
            assert(init[i] == lines[i]);
        }
        lemma_m3u_text_no_blank_line(init);
        let h = m3u_text(init);
        let l = lines.last();
        assert(is_line(lines[lines.len() - 1]));
        let t = m3u_text(lines);
        assert(t == h + l + seq!['\n']);
        assert(t.len() == h.len() + l.len() + 1);
        assert forall|j: int| 0 <= j < l.len() implies l[j] != '\n' by {
            if l[j] == '\n' {
                assert(l.contains('\n'));
            }
        }
        if h.len() == 0 {
            assert(t[0] == l[0]);
        } else {
            assert(t[0] == h[0]);
        }
        assert forall|k: int|
            0 <= k < t.len() - 1 implies !(#[trigger] t[k] == '\n' && t[k + 1] == '\n') by {
            if k + 1 < h.len() {
                assert(t[k] == h[k] && t[k + 1] == h[k + 1]);
            } else if k + 1 < h.len() + l.len() {
                assert(t[k + 1] == l[k + 1 - h.len()]);
            } else {
                assert(t[k] == l[l.len() - 1]);
            }
        }
    }
}

/// The name of the playlist of a folder: the folder as written, or the last
/// component of the source directory where the folder is the source
/// directory itself.
pub open spec fn playlist_name(source: PathSpec, folder: PathSpec) -> Seq<char> {
    if join(folder).len() == 0 {
        source.last()
    } else {
        join(folder)
    }
}

/// The playlist built from a folder group of the source directory `source`.
pub open spec fn playlist_of(source: PathSpec, g: (PathSpec, Seq<PathSpec>)) -> (
    Seq<char>,
    Seq<PathSpec>,
) {
    (playlist_name(source, g.0), g.1)
}

/// The views of a list of playlists.
pub open spec fn playlists_view(ps: Vec<Playlist>) -> Seq<(Seq<char>, Seq<PathSpec>)> {
    ps@.map_values(|p: Playlist| p@)
}

/// No two playlists have the same name.
pub open spec fn names_distinct(ps: Seq<(Seq<char>, Seq<PathSpec>)>) -> bool {
    forall|i: int, j: int| 0 <= i < j < ps.len() ==> ps[i].0 != ps[j].0
}

impl Playlist {
    /// The lines of the playlist.
    pub fn to_contents(&self) -> (r: Vec<String>)
        ensures
            r@.map_values(|s: String| s@) == contents(paths_view(self.files)),
    {
        let mut r: Vec<String> = Vec::new();
        let mut i: usize = 0;
        while i < self.files.len()
            invariant
                i <= self.files@.len(),
                r@.map_values(|s: String| s@) =~= contents(paths_view(self.files)).subrange(
                    0,
                    i as int,
                ),
            decreases self.files@.len() - i,
        {
            let line = path_to_string(&self.files[i]);
            let ghost before = r@.map_values(|s: String| s@);
            r.push(line);
            assert(r@.map_values(|s: String| s@) =~= before.push(line@));
            i = i + 1;
        }
        r
    }

    /// The name of the playlist's file.
    pub fn to_m3u(&self) -> (r: String)
        ensures
            r@ == m3u_name(self.name@),
    {
        let ext = ".m3u";
        proof {
            reveal_strlit(".m3u");
        }
        let mut r = self.name.clone();
        r.append(ext);
        assert(r@ =~= m3u_name(self.name@));
        r
    }

    /// What the playlist's file holds.
    pub fn to_text(&self) -> (r: String)
        ensures
            r@ == m3u_text(contents(paths_view(self.files))),
    {
        let ghost lines = contents(paths_view(self.files));
        let nl = "\n";
        proof {
            reveal_strlit("\n");
        }
        let mut r = String::new();
        let mut i: usize = 0;
        while i < self.files.len()
            invariant
                i <= self.files@.len(),
                lines == contents(paths_view(self.files)),
                nl@ == seq!['\n'],
                r@ == m3u_text(lines.subrange(0, i as int)),
            decreases self.files@.len() - i,
        {
            assert(lines.subrange(0, i + 1).drop_last() =~= lines.subrange(0, i as int));
            let line = path_to_string(&self.files[i]);
            r.append(line.as_str());
            r.append(nl);
            i = i + 1;
        }
        assert(lines.subrange(0, i as int) =~= lines);
        r
    }
}

/// Builds one playlist from each folder group of the source directory
/// `source`, in the order of the groups.
pub fn make_playlists(source: &Vec<String>, grouped_files: Vec<FolderGroup>) -> (r: Vec<Playlist>)
    requires
        names_a_file(path_view(*source)),
    ensures
        playlists_view(r) == groups_view(grouped_files).map_values(
            |g: (PathSpec, Seq<PathSpec>)| playlist_of(path_view(*source), g),
        ),
{
    let ghost gs = groups_view(grouped_files);
    let ghost want = gs.map_values(|g: (PathSpec, Seq<PathSpec>)| playlist_of(path_view(*source), g));
    let mut groups = grouped_files;
    let mut r: Vec<Playlist> = Vec::new();
    while groups.len() > 0
        invariant
            groups@.len() <= gs.len(),
            groups_view(groups) =~= gs.subrange(0, groups@.len() as int),
            playlists_view(r) =~= want.subrange(groups@.len() as int, gs.len() as int),
            source@.len() > 0,
            want == gs.map_values(|g: (PathSpec, Seq<PathSpec>)| playlist_of(path_view(*source), g)),
        decreases groups@.len(),
    {
        let ghost n = groups@.len();
        let ghost old_groups = groups@;
        let ghost old_gv = groups_view(groups);
        let grp = match groups.pop() {
            Some(g) => g,
            None => { return r; },
        };
        let mut name = path_to_string(&grp.folder);
        if name.as_str().unicode_len() == 0 {
            name = source[source.len() - 1].clone();
        }
        assert(grp == old_groups[n - 1]);
        assert(groups_view(groups) =~= gs.subrange(0, groups@.len() as int)) by {
            assert(groups@ =~= old_groups.subrange(0, n - 1));
        }
        assert(gs[n - 1] == grp@) by {
            assert(old_gv[n - 1] == gs.subrange(0, n as int)[n - 1]);
        }
        let p = Playlist { name, files: grp.files };
        assert(p@ == want[n - 1]);
        let ghost before = playlists_view(r);
        r.insert(0, p);
        assert(playlists_view(r) =~= seq![p@] + before);
    }
    r
}

/// The places of two playlists that share a name, if any.
pub fn find_name_collision(playlists: &Vec<Playlist>) -> (r: Option<(usize, usize)>)
    ensures
        r is None <==> names_distinct(playlists_view(*playlists)),
        r matches Some((i, j)) ==> i < j < playlists@.len() && playlists_view(*playlists)[i as int].0
            == playlists_view(*playlists)[j as int].0,
{
    let ghost ps = playlists_view(*playlists);
    let mut i: usize = 0;
    while i < playlists.len()
        invariant
            i <= playlists@.len(),
            ps == playlists_view(*playlists),
            forall|a: int, b: int| 0 <= a < i && a < b < ps.len() ==> ps[a].0 != ps[b].0,
        decreases playlists@.len() - i,
    {
        let mut j: usize = i + 1;
        while j < playlists.len()
            invariant
                i < j <= playlists@.len(),
                ps == playlists_view(*playlists),
                forall|a: int, b: int| 0 <= a < i && a < b < ps.len() ==> ps[a].0 != ps[b].0,
                forall|b: int| i < b < j ==> ps[i as int].0 != ps[b].0,
            decreases playlists@.len() - j,
        {
            if playlists[i].name == playlists[j].name {
                assert(ps[i as int].0 == ps[j as int].0);
                return Some((i, j));
            }
            j = j + 1;
        }
        i = i + 1;
    }
    None
}

} // verus!
