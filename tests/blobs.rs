use linguist::blob::FileBlob;
use linguist::generated::is_generated;
use linguist::language::Registry;
use linguist::text::split_lines;

#[test]
fn test_file_blob() {
    let blob = FileBlob::from_data("dir/test.txt", b"This is a test".to_vec());
    assert_eq!(blob.name(), "dir/test.txt");
    assert_eq!(blob.extension(), Some(".txt".to_string()));
    assert_eq!(blob.data(), b"This is a test");
    assert_eq!(blob.size(), 14);
    assert!(!blob.is_binary());
    assert!(!blob.is_symlink());
    assert!(!blob.is_empty());
    assert!(blob.is_text());
}

#[test]
fn test_file_blob_extensions() {
    let blob = FileBlob::from_data("dir/test.html.erb", b"<% puts 'Hello' %>".to_vec());
    let extensions = blob.extensions();
    assert_eq!(extensions.len(), 2);
    assert!(extensions.contains(&".html.erb".to_string()));
    assert!(extensions.contains(&".erb".to_string()));
    assert_eq!(extensions, vec![".html.erb".to_string(), ".erb".to_string()]);
}

#[test]
fn test_binary_detection() {
    let blob = FileBlob::from_data("binary.bin", vec![0, 1, 2, 3, 0, 5]);
    assert!(blob.is_binary());
    assert!(!blob.is_text());
    let invalid = FileBlob::from_data("latin1.txt", vec![b'c', b'a', b'f', 0xe9]);
    assert!(invalid.is_binary());
    let empty = FileBlob::from_data("empty.txt", vec![]);
    assert!(!empty.is_binary());
    assert!(empty.is_empty());
}

#[test]
fn blob_predicates_by_extension() {
    assert!(FileBlob::from_data("img/Logo.PNG", vec![1]).likely_binary());
    assert!(FileBlob::from_data("img/Logo.PNG", vec![1]).is_image());
    assert!(FileBlob::from_data("lib.so", vec![1]).likely_binary());
    assert!(!FileBlob::from_data("lib.so", vec![1]).is_image());
    assert!(!FileBlob::from_data("main.rs", vec![1]).likely_binary());
    assert!(!FileBlob::from_data("png/readme", vec![1]).likely_binary());
}

#[test]
fn lines_split_on_every_terminator() {
    let blob = FileBlob::from_data("a.txt", b"one\r\ntwo\rthree\nfour\n".to_vec());
    assert_eq!(blob.lines(), vec!["one", "two", "three", "four"]);
    assert_eq!(blob.loc(), 4);
    assert_eq!(blob.first_lines(2), vec!["one", "two"]);
    assert_eq!(blob.last_lines(2), vec!["three", "four"]);
    assert_eq!(blob.last_lines(10).len(), 4);
    assert_eq!(FileBlob::from_data("b", b"\n\nx".to_vec()).lines(), vec!["", "", "x"]);
    assert!(FileBlob::from_data("c", vec![0, 10, 65]).lines().is_empty());
    let cs: Vec<char> = "a\r\n\r\nb".chars().collect();
    assert_eq!(split_lines(&cs), vec!["a", "", "b"]);
}

#[test]
fn encoding_from_byte_order_mark() {
    let utf8 = FileBlob::from_data("a.txt", b"\xef\xbb\xbfhello".to_vec());
    assert_eq!(utf8.encoding(), Some(("UTF-8".to_string(), 100)));
    let plain = FileBlob::from_data("a.txt", b"hello".to_vec());
    assert_eq!(plain.encoding(), Some(("UTF-8".to_string(), 60)));
    assert_eq!(FileBlob::from_data("a.txt", vec![]).encoding(), None);
    assert_eq!(FileBlob::from_data("a.txt", vec![0xff, 0xfe, 0, 0x41]).encoding(), None);
}

#[test]
fn entries_with_link_modes_are_links() {
    let link = FileBlob::from_entry("docs/link", b"target".to_vec(), 0o120000);
    assert!(link.is_symlink());
    assert_eq!(link.size(), 0);
    let file = FileBlob::from_entry("src/a.rs", b"fn a() {}".to_vec(), 0o100644);
    assert!(!file.is_symlink());
    assert_eq!(file.size(), 9);
}

#[test]
fn vendored_documentation_generated() {
    let reg = Registry::builtin().unwrap();
    let vendored = FileBlob::from_data("vendor/lib/a.rs", b"fn a() {}".to_vec());
    assert!(vendored.is_vendored());
    assert!(!vendored.include_in_language_stats(&reg));
    let readme = FileBlob::from_data("README.md", b"# Title".to_vec());
    assert!(readme.is_documentation());
    assert!(!readme.include_in_language_stats(&reg));
    assert!(FileBlob::from_data("docs/guide.rs", vec![b'x']).is_documentation());
    assert!(is_generated("Cargo.lock", b"[[package]]"));
    assert!(is_generated("api/service.pb.go", b"package api"));
    assert!(is_generated("gen.rs", b"// Code generated by protoc. DO NOT EDIT.\nfn a() {}"));
    assert!(!is_generated("src/lib.rs", b"fn a() {}"));
    let generated = FileBlob::from_data("gen.rs", b"// @generated\nfn a() {}".to_vec());
    assert!(generated.is_generated());
    assert!(!generated.include_in_language_stats(&reg));
    let source = FileBlob::from_data("src/lib.rs", b"fn a() {}".to_vec());
    assert!(source.include_in_language_stats(&reg));
    let data = FileBlob::from_data("config.json", b"{}".to_vec());
    assert!(!data.include_in_language_stats(&reg));
}

#[test]
fn hidden_file_names_have_no_extension() {
    assert_eq!(FileBlob::from_data("home/.bashrc", vec![b'x']).extension(), None);
    assert_eq!(FileBlob::from_data("home/.config.yml", vec![b'x']).extension(), Some(".yml".to_string()));
    assert!(!linguist::strategy::extension::Extension::is_generic("dir/.app"));
    assert!(!FileBlob::from_data(".png", vec![b'x']).likely_binary());
}

#[test]
fn submodule_entries_keep_no_bytes() {
    let sub = FileBlob::from_entry("vendor/lib", b"commit".to_vec(), 0o160000);
    assert!(sub.is_submodule());
    assert!(!sub.is_symlink());
    assert_eq!(sub.size(), 0);
}
