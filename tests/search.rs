use dirname_search::cstring::{decode_c_string, encode_c_string};
use dirname_search::entry::{bytes_equal, is_match, DirEntry, EntryKind};
use dirname_search::export::{export_matches, ExportedStringArray, MarshalError};
use dirname_search::matcher::{collect_matches, MatchSet, WalkFault};

fn dir(path: &str) -> DirEntry {
    let name = path.rsplit('/').next().unwrap();
    DirEntry::new(path.as_bytes().to_vec(), name.as_bytes().to_vec(), EntryKind::Directory)
}

fn file(path: &str) -> DirEntry {
    let name = path.rsplit('/').next().unwrap();
    DirEntry::new(path.as_bytes().to_vec(), name.as_bytes().to_vec(), EntryKind::File)
}

fn bytes(s: &str) -> Vec<u8> {
    s.as_bytes().to_vec()
}

fn strings(v: Vec<Vec<u8>>) -> Vec<String> {
    v.into_iter().map(|b| String::from_utf8(b).unwrap()).collect()
}

fn root_walk() -> Vec<DirEntry> {
    vec![
        dir("/tmp/root"),
        dir("/tmp/root/a"),
        dir("/tmp/root/a/target"),
        dir("/tmp/root/b"),
        dir("/tmp/root/b/c"),
        dir("/tmp/root/b/c/target"),
        dir("/tmp/root/target"),
        file("/tmp/root/b/target.txt"),
    ]
}

#[test]
fn three_nested_matches_in_walk_order() {
    let array = export_matches(&root_walk(), &bytes("target")).unwrap();
    assert_eq!(array.len(), 3);
    assert_eq!(
        strings(array.read_until_sentinel()),
        vec!["/tmp/root/a/target", "/tmp/root/b/c/target", "/tmp/root/target"]
    );
    let slots = array.into_slots();
    assert_eq!(slots.len(), 4);
    assert_eq!(slots[0], Some(bytes("/tmp/root/a/target\0")));
    assert_eq!(slots[3], None);
}

#[test]
fn empty_root_gives_only_the_sentinel() {
    let walk = vec![dir("/tmp/empty")];
    let array = export_matches(&walk, &bytes("x")).unwrap();
    assert_eq!(array.len(), 0);
    assert!(array.read_until_sentinel().is_empty());
    assert_eq!(array.into_slots(), vec![None]);
}

#[test]
fn no_match_gives_only_the_sentinel() {
    let array = export_matches(&root_walk(), &bytes("missing")).unwrap();
    assert_eq!(array.len(), 0);
    assert_eq!(array.into_slots(), vec![None]);
}

#[test]
fn unreadable_entry_aborts_the_walk() {
    let mut set = MatchSet::new(bytes("target"));
    assert!(set.observe(Ok(dir("/missing/target"))).is_ok());
    let fault = WalkFault { message: "No such file or directory".to_string() };
    let r = set.observe(Err(fault));
    assert_eq!(r.unwrap_err().message, "No such file or directory");
    assert_eq!(set.count(), 1);
}

#[test]
fn hidden_directories_are_searched_and_reported() {
    let walk = vec![
        dir("root"),
        dir("root/.foo"),
        dir("root/.foo/foo"),
        dir("root/.hidden"),
        dir("root/.hidden/foo"),
    ];
    assert_eq!(
        strings(collect_matches(&walk, &bytes("foo"))),
        vec!["root/.foo/foo", "root/.hidden/foo"]
    );
    assert_eq!(strings(collect_matches(&walk, &bytes(".foo"))), vec!["root/.foo"]);
}

#[test]
fn files_and_other_entries_never_match() {
    let walk = vec![
        file("r/target"),
        DirEntry::new(bytes("r/link/target"), bytes("target"), EntryKind::Other),
    ];
    assert!(collect_matches(&walk, &bytes("target")).is_empty());
}

#[test]
fn root_itself_is_eligible() {
    let walk = vec![dir("/data/target"), dir("/data/target/x")];
    assert_eq!(strings(collect_matches(&walk, &bytes("target"))), vec!["/data/target"]);
}

#[test]
fn names_compare_case_sensitively() {
    let walk = vec![dir("r/Target"), dir("r/TARGET"), dir("r/target")];
    assert_eq!(strings(collect_matches(&walk, &bytes("target"))), vec!["r/target"]);
}

#[test]
fn nested_repeats_are_each_reported() {
    let walk = vec![dir("r/foo"), dir("r/foo/foo"), dir("r/foo/foo/foo")];
    assert_eq!(
        strings(collect_matches(&walk, &bytes("foo"))),
        vec!["r/foo", "r/foo/foo", "r/foo/foo/foo"]
    );
}

#[test]
fn same_walk_gives_same_order() {
    let a = export_matches(&root_walk(), &bytes("target")).unwrap().into_slots();
    let b = export_matches(&root_walk(), &bytes("target")).unwrap().into_slots();
    assert_eq!(a, b);
}

#[test]
fn match_set_keeps_matches_in_order() {
    let mut set = MatchSet::new(bytes("t"));
    for e in [dir("r/t"), file("r/u/t"), dir("r/u"), dir("r/u/t")] {
        assert!(set.observe(Ok(e)).is_ok());
    }
    assert_eq!(set.count(), 2);
    assert_eq!(strings(set.into_paths()), vec!["r/t", "r/u/t"]);
}

#[test]
fn encode_appends_one_nul() {
    assert_eq!(encode_c_string(&bytes("abc")), Some(bytes("abc\0")));
    assert_eq!(encode_c_string(&Vec::new()), Some(vec![0u8]));
}

#[test]
fn encode_refuses_an_embedded_nul() {
    assert_eq!(encode_c_string(&bytes("a\0b")), None);
}

#[test]
fn decode_stops_at_the_first_nul() {
    assert_eq!(decode_c_string(&bytes("ab\0cd\0")), bytes("ab"));
    assert_eq!(decode_c_string(&bytes("abc")), bytes("abc"));
    assert_eq!(decode_c_string(&bytes("\0")), Vec::<u8>::new());
}

#[test]
fn export_names_the_first_path_with_a_nul() {
    let paths = vec![bytes("ok"), bytes("b\0d"), bytes("\0")];
    assert_eq!(
        ExportedStringArray::from_paths(&paths).err(),
        Some(MarshalError::EmbeddedNul { index: 1 })
    );
}

#[test]
fn export_reads_back_as_its_paths() {
    let paths = vec![bytes("/x/a"), bytes(""), bytes("/y/b")];
    let array = ExportedStringArray::from_paths(&paths).unwrap();
    assert_eq!(array.len(), 3);
    assert_eq!(array.read_until_sentinel(), paths);
}

#[test]
fn match_needs_directory_and_exact_name() {
    let t = bytes("foo");
    assert!(is_match(&dir("a/foo"), &t));
    assert!(!is_match(&dir("a/foobar"), &t));
    assert!(!is_match(&dir("a/fo"), &t));
    assert!(!is_match(&file("a/foo"), &t));
    assert!(dir("a").is_dir());
    assert!(bytes_equal(&bytes("abc"), &bytes("abc")));
    assert!(!bytes_equal(&bytes("abc"), &bytes("abd")));
    assert!(!bytes_equal(&bytes("abc"), &bytes("ab")));
}
