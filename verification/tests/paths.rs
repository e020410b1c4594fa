use musso::config::{Config, Library};
use musso::table::PathMap;
use musso::path::{copy_paths, FsPath};
use musso::roots::RootIndex;
use musso::sorting::Options;

fn p(text: &str) -> FsPath {
    let names = text.split('/').filter(|s| !s.is_empty()).map(|s| s.to_string()).collect();
    FsPath::new(text.starts_with('/'), names)
}

fn options(format: &str) -> Options {
    Options {
        format: format.to_string(),
        dryrun: false,
        recursive: false,
        exfat_compat: false,
        remove_empty: false,
    }
}

fn library(name: &str, folders: &[&str]) -> Library {
    Library {
        name: name.to_string(),
        folders: folders.iter().map(|f| p(f)).collect(),
        options: options("{artist}/{album}/{title}"),
    }
}

#[test]
fn path_knows_its_root_marker_and_depth() {
    let path = p("/music/Jazz/Artist");
    assert!(path.is_absolute());
    assert_eq!(path.depth(), 3);
    assert_eq!(path.name(0), "music");
    assert_eq!(path.name(2), "Artist");
    let relative = p("Artist/AlbumX");
    assert!(!relative.is_absolute());
    assert_eq!(relative.depth(), 2);
}

#[test]
fn path_parent_drops_the_last_name() {
    assert_eq!(p("/music/Jazz/Artist").parent(), Some(p("/music/Jazz")));
    assert_eq!(p("/music").parent(), Some(p("/")));
    assert_eq!(p("AlbumX").parent(), Some(p("")));
}

#[test]
fn path_without_names_has_no_parent() {
    assert_eq!(p("/").parent(), None);
    assert_eq!(p("").parent(), None);
}

#[test]
fn path_pop_walks_up_to_the_root() {
    let mut path = p("/music/Jazz");
    assert!(path.pop());
    assert_eq!(path, p("/music"));
    assert!(path.pop());
    assert_eq!(path, p("/"));
    assert!(!path.pop());
    assert_eq!(path, p("/"));
}

#[test]
fn path_join_appends_relative_and_keeps_absolute() {
    let root = p("/music/Jazz");
    assert_eq!(root.join(&p("Artist/AlbumX")), p("/music/Jazz/Artist/AlbumX"));
    assert_eq!(root.join(&p("/other/place")), p("/other/place"));
    assert_eq!(root.join(&p("")), p("/music/Jazz"));
    assert_eq!(p("rel").join(&p("more")), p("rel/more"));
}

#[test]
fn path_text_puts_slashes_between_names() {
    assert_eq!(p("/music/Jazz/Artist").to_text(), "/music/Jazz/Artist");
    assert_eq!(p("/").to_text(), "/");
    assert_eq!(p("Artist/AlbumX").to_text(), "Artist/AlbumX");
    assert_eq!(p("single").to_text(), "single");
    assert_eq!(p("").to_text(), "");
}

#[test]
fn path_equality_goes_by_names_not_by_text() {
    assert!(p("/music/Jazz").same(&p("/music//Jazz/")));
    assert!(!p("/music/Jazz").same(&p("music/Jazz")));
    assert!(!p("/music/Jazz").same(&p("/music/Jazzy")));
    assert!(!p("/music/Jazz").same(&p("/music")));
    assert_eq!(p("/music/Jazz"), p("/music/Jazz").clone());
    assert_ne!(p("/music/Jazz"), p("/music/Jazz/Artist"));
}

#[test]
fn path_lies_within_itself_and_what_is_above() {
    let path = p("/music/Jazz/Artist");
    assert!(path.is_within(&p("/music/Jazz/Artist")));
    assert!(path.is_within(&p("/music/Jazz")));
    assert!(path.is_within(&p("/")));
    assert!(!path.is_within(&p("/music/Jazz/Artist/AlbumX")));
    assert!(!path.is_within(&p("/music/Rock")));
    assert!(!path.is_within(&p("music/Jazz")));
    assert!(!path.is_within(&p("")));
    assert!(!p("/music/Jazzy").is_within(&p("/music/Jazz")));
    assert!(p("a/b").is_within(&p("")));
}

#[test]
fn path_digest_is_shared_by_equal_paths() {
    assert_eq!(p("/music/Jazz").digest(), p("/music/Jazz").clone().digest());
    assert_eq!(p("/").digest(), 1);
    assert_eq!(p("").digest(), 0);
    // one name "a": ((1 * 31 + 97 + 1) * 31 + 47 + 1) modulo 4294967291
    assert_eq!(p("/a").digest(), 4047);
}

#[test]
fn copy_paths_keeps_order() {
    let paths = vec![p("/b"), p("/a"), p("/c/d")];
    assert_eq!(copy_paths(&paths), paths);
}

#[test]
fn table_files_and_finds() {
    let mut table: PathMap<u32> = PathMap::new();
    assert_eq!(table.get(&p("/music/Jazz")), None);
    table.insert(p("/music/Jazz"), 1);
    table.insert(p("/music/Rock"), 2);
    assert_eq!(table.get(&p("/music/Jazz")), Some(&1));
    assert_eq!(table.get(&p("/music/Rock")), Some(&2));
    assert_eq!(table.get(&p("/music")), None);
    assert!(table.contains(&p("/music/Rock")));
    assert!(!table.contains(&p("music/Rock")));
}

#[test]
fn table_insert_replaces_what_was_filed() {
    let mut table: PathMap<u32> = PathMap::new();
    table.insert(p("/music/Jazz"), 1);
    table.insert(p("/music/Jazz"), 7);
    assert_eq!(table.get(&p("/music/Jazz")), Some(&7));
    assert!(table.remove(&p("/music/Jazz")));
    assert_eq!(table.get(&p("/music/Jazz")), None);
}

#[test]
fn table_remove_takes_out_one_entry() {
    let mut table: PathMap<u32> = PathMap::new();
    for i in 0..200u32 {
        table.insert(p(&format!("/music/lib{}/x", i)), i);
    }
    assert!(table.remove(&p("/music/lib17/x")));
    assert!(!table.remove(&p("/music/lib17/x")));
    assert!(!table.remove(&p("/music/none")));
    for i in 0..200u32 {
        let found = table.get(&p(&format!("/music/lib{}/x", i))).copied();
        if i == 17 {
            assert_eq!(found, None);
        } else {
            assert_eq!(found, Some(i));
        }
    }
    let copy = table.clone();
    assert_eq!(copy.get(&p("/music/lib3/x")), Some(&3));
}

#[test]
fn roots_resolve_the_root_itself_and_what_lies_below() {
    let mut index = RootIndex::new();
    index.insert(p("/music/Jazz"), "Jazz".to_string());
    index.insert(p("/music/Rock"), "Rock".to_string());
    assert_eq!(index.find_root(&p("/music/Jazz")), Some(p("/music/Jazz")));
    assert_eq!(index.find_root(&p("/music/Jazz/Artist/AlbumX/t.mp3")), Some(p("/music/Jazz")));
    assert_eq!(index.find_root(&p("/music/Rock/a")), Some(p("/music/Rock")));
}

#[test]
fn roots_resolve_nothing_outside() {
    let mut index = RootIndex::new();
    index.insert(p("/music/Jazz"), "Jazz".to_string());
    assert_eq!(index.find_root(&p("/music")), None);
    assert_eq!(index.find_root(&p("/music/Jazzy/a")), None);
    assert_eq!(index.find_root(&p("/incoming/AlbumX")), None);
    assert_eq!(index.find_root(&p("music/Jazz/a")), None);
    assert_eq!(index.find_root(&p("/")), None);
    assert_eq!(RootIndex::new().find_root(&p("/music/Jazz")), None);
}

#[test]
fn roots_nested_resolve_to_the_nearest() {
    let mut index = RootIndex::new();
    index.insert(p("/a"), "outer".to_string());
    index.insert(p("/a/b"), "inner".to_string());
    assert_eq!(index.find_root(&p("/a/b/c")), Some(p("/a/b")));
    assert_eq!(index.find_root(&p("/a/x")), Some(p("/a")));
    assert_eq!(index.resolve_library(&p("/a/b")), Some(&"inner".to_string()));
    assert_eq!(index.resolve_library(&p("/a")), Some(&"outer".to_string()));
    assert_eq!(index.resolve_library(&p("/a/b/c")), None);
}

#[test]
fn roots_from_config_list_each_folder_once() {
    let config = Config {
        libraries: vec![
            library("Jazz", &["/music/Jazz", "/mnt/Jazz"]),
            library("Rock", &["/music/Rock", "/music/Jazz"]),
        ],
        every: None,
    };
    let index = RootIndex::from_config(&config);
    assert_eq!(index.roots(), &vec![p("/music/Jazz"), p("/mnt/Jazz"), p("/music/Rock")]);
    assert!(!index.is_empty());
    assert_eq!(index.resolve_library(&p("/mnt/Jazz")), Some(&"Jazz".to_string()));
    assert_eq!(index.resolve_library(&p("/music/Rock")), Some(&"Rock".to_string()));
    // the folder that both name belongs to the library configured later
    assert_eq!(index.resolve_library(&p("/music/Jazz")), Some(&"Rock".to_string()));
}

#[test]
fn roots_of_no_library_are_empty() {
    let index = RootIndex::from_config(&Config { libraries: vec![], every: Some(5) });
    assert!(index.is_empty());
    assert!(index.roots().is_empty());
    let folderless = Config { libraries: vec![library("Jazz", &[])], every: None };
    assert!(RootIndex::from_config(&folderless).is_empty());
}

#[test]
fn config_finds_the_first_library_of_a_name() {
    let mut second = library("Jazz", &["/b"]);
    second.options.format = "other".to_string();
    let config = Config { libraries: vec![library("Jazz", &["/a"]), second], every: None };
    let found = config.library(&"Jazz".to_string()).unwrap();
    assert_eq!(found.folders, vec![p("/a")]);
    assert_eq!(found.options.format, "{artist}/{album}/{title}");
    assert!(config.library(&"Rock".to_string()).is_none());
}

#[test]
fn config_interval_defaults_to_one_second() {
    assert_eq!(Config { libraries: vec![], every: None }.interval(), 1);
    assert_eq!(Config { libraries: vec![], every: Some(30) }.interval(), 30);
    assert_eq!(Config { libraries: vec![], every: Some(0) }.interval(), 0);
}
