use pcloud_sync::folder::sync::LocalEntry;
use pcloud_sync::path::{join, name_of};

fn s(text: &str) -> String {
    text.to_string()
}

#[test]
fn join_puts_one_separator_between_directory_and_name() {
    assert_eq!(join(&s("/tmp/root"), &s("foo.txt")), "/tmp/root/foo.txt");
    assert_eq!(join(&s("/tmp/root/"), &s("foo.txt")), "/tmp/root/foo.txt");
    assert_eq!(join(&s("/"), &s("foo.txt")), "/foo.txt");
    assert_eq!(join(&s("rel"), &s("é.txt")), "rel/é.txt");
}

#[test]
fn join_with_empty_directory_or_rooted_name_is_the_name() {
    assert_eq!(join(&s(""), &s("foo.txt")), "foo.txt");
    assert_eq!(join(&s("/tmp/root"), &s("/abs/foo.txt")), "/abs/foo.txt");
    assert_eq!(join(&s("/tmp/root"), &s("")), "/tmp/root/");
}

#[test]
fn name_is_the_last_component() {
    assert_eq!(name_of(&s("/usr/bin/tool")), Some(s("tool")));
    assert_eq!(name_of(&s("tmp/foo.txt")), Some(s("foo.txt")));
    assert_eq!(name_of(&s("foo.txt")), Some(s("foo.txt")));
    assert_eq!(name_of(&s("/données/été.txt")), Some(s("été.txt")));
    assert_eq!(name_of(&s("a/../b")), Some(s("b")));
    assert_eq!(name_of(&s("a/...")), Some(s("...")));
    assert_eq!(name_of(&s("a/.hidden")), Some(s(".hidden")));
    assert_eq!(name_of(&s("a/b..")), Some(s("b..")));
}

#[test]
fn name_passes_over_trailing_separators_and_dots() {
    assert_eq!(name_of(&s("/usr/bin/")), Some(s("bin")));
    assert_eq!(name_of(&s("/usr/bin///")), Some(s("bin")));
    assert_eq!(name_of(&s("foo.txt/.")), Some(s("foo.txt")));
    assert_eq!(name_of(&s("foo.txt/.//")), Some(s("foo.txt")));
    assert_eq!(name_of(&s("a//b")), Some(s("b")));
}

#[test]
fn paths_without_a_name_have_none() {
    assert_eq!(name_of(&s("")), None);
    assert_eq!(name_of(&s("/")), None);
    assert_eq!(name_of(&s("//")), None);
    assert_eq!(name_of(&s(".")), None);
    assert_eq!(name_of(&s("./")), None);
    assert_eq!(name_of(&s("./.")), None);
    assert_eq!(name_of(&s("/.")), None);
    assert_eq!(name_of(&s("..")), None);
    assert_eq!(name_of(&s("foo.txt/..")), None);
    assert_eq!(name_of(&s("foo.txt/../")), None);
}

#[test]
fn name_agrees_with_std_path() {
    let samples = [
        "", "/", ".", "..", "a", "a/", "a/b", "a/b/", "a/.", "a/..", "/a/./b/.", "./a", "a//b//",
        "/.", "./.", "a/.b", "a/b.", "a/..b", "..a", "a/./", "/a/b/../c", "x/.../y", ".../",
    ];
    for sample in samples {
        let expected = std::path::Path::new(sample)
            .file_name()
            .and_then(|name| name.to_str())
            .map(String::from);
        assert_eq!(name_of(&s(sample)), expected, "path {:?}", sample);
    }
}

#[test]
fn join_agrees_with_std_path() {
    let samples = [("/a", "b"), ("/a/", "b"), ("", "b"), ("a", "/b"), ("/", "b"), ("a/b", "c.txt")];
    for (dir, name) in samples {
        let expected = std::path::Path::new(dir).join(name);
        assert_eq!(join(&s(dir), &s(name)), expected.to_str().unwrap());
    }
}

#[test]
fn local_entry_path_and_name() {
    let file = LocalEntry::File(s("/root/first/foo.txt"));
    assert_eq!(file.path(), "/root/first/foo.txt");
    assert_eq!(file.name(), Some(s("foo.txt")));
    let dir = LocalEntry::Folder(s("/root/first/"));
    assert_eq!(dir.path(), "/root/first/");
    assert_eq!(dir.name(), Some(s("first")));
    assert_eq!(LocalEntry::Folder(s("/")).name(), None);
    assert_eq!(LocalEntry::File(s("/root/..")).name(), None);
}
