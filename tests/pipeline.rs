use cue2m3u::discover::{find_cue_files, make_relative_paths};
use cue2m3u::generate::generate_playlists;
use cue2m3u::group::group_files_by_folder;
use cue2m3u::path::{has_file_name, is_cue_name, path_to_string, strip_prefix};
use cue2m3u::playlist::{find_name_collision, make_playlists, Playlist};
use cue2m3u::write::{plan_write, write_step, OpenOutcome, WriteAction};
use cue2m3u::GenerateError;

fn path(s: &str) -> Vec<String> {
    let mut r = vec![];
    if s.starts_with('/') {
        r.push("/".to_string());
    }
    for c in s.split('/').filter(|c| !c.is_empty()) {
        r.push(c.to_string());
    }
    r
}

fn paths(ss: &[&str]) -> Vec<Vec<String>> {
    ss.iter().map(|s| path(s)).collect()
}

fn find<'a>(ps: &'a [Playlist], name: &str) -> &'a Playlist {
    ps.iter().find(|p| p.name == name).expect("playlist present")
}

#[test]
fn nested_folders_need_recursion() {
    let source = path("/games");
    let shallow = paths(&["/games", "/games/A", "/games/B"]);
    let ps = generate_playlists(&source, Some(shallow), false).unwrap();
    assert!(ps.is_empty());

    let full = paths(&[
        "/games",
        "/games/A",
        "/games/A/1.cue",
        "/games/A/2.cue",
        "/games/B",
        "/games/B/1.cue",
    ]);
    let ps = generate_playlists(&source, Some(full.clone()), false).unwrap();
    assert!(ps.is_empty());

    let ps = generate_playlists(&source, Some(full), true).unwrap();
    assert_eq!(ps.len(), 2);
    let a = find(&ps, "A");
    assert_eq!(a.to_m3u(), "A.m3u");
    assert_eq!(a.to_contents(), vec!["A/1.cue".to_string(), "A/2.cue".to_string()]);
    let b = find(&ps, "B");
    assert_eq!(b.to_m3u(), "B.m3u");
    assert_eq!(b.to_contents(), vec!["B/1.cue".to_string()]);
}

#[test]
fn root_files_named_after_source() {
    let source = path("/roms/Game");
    let entries = paths(&["/roms/Game", "/roms/Game/disc1.cue", "/roms/Game/disc2.cue"]);
    for recursive in [false, true] {
        let ps = generate_playlists(&source, Some(entries.clone()), recursive).unwrap();
        assert_eq!(ps.len(), 1);
        assert_eq!(ps[0].name, "Game");
        assert_eq!(ps[0].to_m3u(), "Game.m3u");
        assert_eq!(
            ps[0].to_contents(),
            vec!["disc1.cue".to_string(), "disc2.cue".to_string()]
        );
    }
}

#[test]
fn missing_source_is_discovery_error() {
    let source = path("/nowhere");
    assert_eq!(
        generate_playlists(&source, None, true).err(),
        Some(GenerateError::Discovery)
    );
}

#[test]
fn path_outside_source_is_path_error() {
    let source = path("/games");
    let entries = paths(&["/other/x.cue"]);
    assert_eq!(
        generate_playlists(&source, Some(entries.clone()), true).err(),
        Some(GenerateError::Path)
    );
    assert_eq!(make_relative_paths(&source, &entries).err(), Some(GenerateError::Path));
}

#[test]
fn root_group_colliding_with_folder() {
    let source = path("/lib/A");
    let entries = paths(&["/lib/A/x.cue", "/lib/A/A/y.cue"]);
    assert_eq!(
        generate_playlists(&source, Some(entries), true).err(),
        Some(GenerateError::NameCollision {
            name: "A".to_string(),
            first: "".to_string(),
            second: "A".to_string(),
        })
    );
}

#[test]
fn cue_names() {
    assert!(is_cue_name(&"game.cue".to_string()));
    assert!(is_cue_name(&".cue".to_string()));
    assert!(!is_cue_name(&"cue".to_string()));
    assert!(!is_cue_name(&"game.cue.bak".to_string()));
    assert!(!is_cue_name(&"game.CUE".to_string()));
    assert!(!is_cue_name(&"".to_string()));
}

#[test]
fn find_keeps_only_cue_files_in_walk_order() {
    let source = path("/g");
    let entries = paths(&["/g", "/g/a.bin", "/g/a.cue", "/g/s", "/g/s/b.cue", "/g/z.cue"]);
    assert_eq!(
        find_cue_files(&source, &entries, true),
        paths(&["/g/a.cue", "/g/s/b.cue", "/g/z.cue"])
    );
    assert_eq!(
        find_cue_files(&source, &entries, false),
        paths(&["/g/a.cue", "/g/z.cue"])
    );
}

#[test]
fn relative_paths_drop_source() {
    let source = path("/g");
    let entries = paths(&["/g/a.cue", "/g/s/b.cue"]);
    assert_eq!(
        make_relative_paths(&source, &entries).unwrap(),
        paths(&["a.cue", "s/b.cue"])
    );
    assert_eq!(strip_prefix(&path("/g/s/b.cue"), &path("/g/s")), Some(path("b.cue")));
    assert_eq!(strip_prefix(&path("/gs/b.cue"), &path("/g")), None);
}

#[test]
fn grouping_keeps_order_within_folder() {
    let files = paths(&["s/b.cue", "a.cue", "s/a.cue", "t/c.cue", "z.cue"]);
    let groups = group_files_by_folder(&files);
    assert_eq!(groups.len(), 3);
    assert_eq!(groups[0].folder, path("s"));
    assert_eq!(groups[0].files, paths(&["s/b.cue", "s/a.cue"]));
    assert_eq!(groups[1].folder, Vec::<String>::new());
    assert_eq!(groups[1].files, paths(&["a.cue", "z.cue"]));
    assert_eq!(groups[2].folder, path("t"));
    assert_eq!(groups[2].files, paths(&["t/c.cue"]));
    assert!(group_files_by_folder(&vec![]).is_empty());
}

#[test]
fn playlists_named_by_folder() {
    let files = paths(&["x/y/1.cue", "top.cue"]);
    let ps = make_playlists(&path("/roms/Lib"), group_files_by_folder(&files));
    assert_eq!(ps.len(), 2);
    assert_eq!(ps[0].name, "x/y");
    assert_eq!(ps[0].to_m3u(), "x/y.m3u");
    assert_eq!(ps[1].name, "Lib");
    assert_eq!(ps[1].to_contents(), vec!["top.cue".to_string()]);
    assert_eq!(find_name_collision(&ps), None);
}

#[test]
fn joined_paths() {
    assert_eq!(path_to_string(&path("a/b/c.cue")), "a/b/c.cue");
    assert_eq!(path_to_string(&path("c.cue")), "c.cue");
    assert_eq!(path_to_string(&vec![]), "");
}

fn sample() -> Playlist {
    Playlist { name: "A".to_string(), files: paths(&["A/1.cue", "A/2.cue"]) }
}

#[test]
fn text_has_one_newline_per_entry() {
    let text = sample().to_text();
    assert_eq!(text, "A/1.cue\nA/2.cue\n");
    assert!(!text.ends_with("\n\n"));
    assert_eq!(Playlist { name: "E".to_string(), files: vec![] }.to_text(), "");
}

#[test]
fn new_file_gets_text() {
    for overwrite in [false, true] {
        match plan_write(&sample(), false, overwrite) {
            WriteAction::Write(text) => assert_eq!(text, "A/1.cue\nA/2.cue\n"),
            WriteAction::Skip => panic!("a new file is written"),
        }
    }
}

#[test]
fn existing_file_is_left_alone() {
    assert!(matches!(plan_write(&sample(), true, false), WriteAction::Skip));
}

#[test]
fn existing_file_is_overwritten_on_request() {
    match plan_write(&sample(), true, true) {
        WriteAction::Write(text) => assert_eq!(text, "A/1.cue\nA/2.cue\n"),
        WriteAction::Skip => panic!("overwrite writes"),
    }
}

#[test]
fn open_outcomes() {
    assert_eq!(write_step(&sample(), OpenOutcome::Opened), Ok(true));
    assert_eq!(write_step(&sample(), OpenOutcome::AlreadyExists), Ok(false));
}

#[test]
fn failed_open_names_playlist() {
    assert_eq!(
        write_step(&sample(), OpenOutcome::Failed),
        Err(GenerateError::Write { name: "A".to_string() })
    );
}

#[test]
fn source_named_like_cue_file_is_not_selected() {
    let source = path("/roms/g.cue");
    let entries = paths(&["/roms/g.cue", "/roms/g.cue/A", "/roms/g.cue/B"]);
    assert!(find_cue_files(&source, &entries, false).is_empty());
    assert!(generate_playlists(&source, Some(entries), false).unwrap().is_empty());

    let full = paths(&[
        "/roms/g.cue",
        "/roms/g.cue/A",
        "/roms/g.cue/A/1.cue",
        "/roms/g.cue/A/2.cue",
        "/roms/g.cue/B",
        "/roms/g.cue/B/1.cue",
    ]);
    assert_eq!(
        find_cue_files(&source, &full, true),
        paths(&["/roms/g.cue/A/1.cue", "/roms/g.cue/A/2.cue", "/roms/g.cue/B/1.cue"])
    );
    let ps = generate_playlists(&source, Some(full), true).unwrap();
    assert_eq!(ps.len(), 2);
    assert_eq!(find(&ps, "A").to_text(), "A/1.cue\nA/2.cue\n");
    assert_eq!(find(&ps, "B").to_text(), "B/1.cue\n");
}

#[test]
fn source_file_names() {
    assert!(has_file_name(&path("/roms/Game")));
    assert!(!has_file_name(&path("/")));
    assert!(!has_file_name(&vec![]));
    assert!(!has_file_name(&path("/roms/..")));
    assert!(!has_file_name(&path("/roms/.")));
    assert!(has_file_name(&path("/roms/.hidden")));
}

#[test]
fn same_tree_gives_same_plan() {
    let source = path("/games");
    let entries = paths(&["/games/A/1.cue", "/games/A/2.cue", "/games/B/1.cue"]);
    let first = generate_playlists(&source, Some(entries.clone()), true).unwrap();
    let second = generate_playlists(&source, Some(entries), true).unwrap();
    let texts = |ps: &Vec<Playlist>| {
        ps.iter().map(|p| (p.to_m3u(), p.to_text())).collect::<Vec<_>>()
    };
    assert_eq!(texts(&first), texts(&second));
}
