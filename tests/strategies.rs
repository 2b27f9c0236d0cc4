use linguist::blob::FileBlob;
use linguist::heuristics::Heuristics;
use linguist::language::{Language, Registry};
use linguist::strategy::extension::Extension;
use linguist::strategy::filename::Filename;
use linguist::strategy::manpage::Manpage;
use linguist::strategy::modeline::Modeline;
use linguist::strategy::shebang::Shebang;
use linguist::strategy::xml::Xml;
use linguist::vendor::is_vendored;

fn registry() -> Registry {
    Registry::builtin().unwrap()
}

fn names(reg: &Registry, found: &[usize]) -> Vec<String> {
    found.iter().map(|&i| reg.language(i).name.clone()).collect()
}

fn id(reg: &Registry, name: &str) -> usize {
    Language::find_by_name(reg, name).unwrap()
}

#[test]
fn test_generic_extensions() {
    assert!(Extension::is_generic("file.app"));
    assert!(Extension::is_generic("file.resource"));
    assert!(!Extension::is_generic("file.rs"));
    assert!(!Extension::is_generic("file.py"));
}

#[test]
fn test_manpage_regex() {
    assert!(Manpage::is_manpage("file.1"));
    assert!(Manpage::is_manpage("file.3"));
    assert!(Manpage::is_manpage("file.man"));
    assert!(Manpage::is_manpage("file.mdoc"));
    assert!(Manpage::is_manpage("file.1.in"));

    assert!(!Manpage::is_manpage("file.txt"));
    assert!(!Manpage::is_manpage("file.10"));
    assert!(!Manpage::is_manpage("file.c"));
}

#[test]
fn test_emacs_modeline() {
    let content = "-*- mode: ruby -*-\nputs 'hello'";
    assert_eq!(Modeline::modeline(content), Some("ruby".to_string()));

    let content = "-*-ruby-*-\nputs 'hello'";
    assert_eq!(Modeline::modeline(content), Some("ruby".to_string()));

    let content = "-*- foo:bar; mode: python; -*-\nprint('hello')";
    assert_eq!(Modeline::modeline(content), Some("python".to_string()));
}

#[test]
fn test_vim_modeline() {
    let content = "#!/bin/sh\n# vim: ft=ruby\nputs 'hello'";
    assert_eq!(Modeline::modeline(content), Some("ruby".to_string()));

    let content = "// vim: set syntax=javascript:\nconsole.log('hello')";
    assert_eq!(Modeline::modeline(content), Some("javascript".to_string()));

    let content = "/* vim: set filetype=c: */\n#include <stdio.h>";
    assert_eq!(Modeline::modeline(content), Some("c".to_string()));
}

#[test]
fn test_interpreter_extraction() {
    let content = b"#!/bin/python\nprint('hello')";
    assert_eq!(Shebang::interpreter(content), Some("python".to_string()));

    let content = b"#!/usr/bin/env ruby\nputs 'hello'";
    assert_eq!(Shebang::interpreter(content), Some("ruby".to_string()));

    let content = b"#!/usr/bin/python2.7\nprint('hello')";
    assert_eq!(Shebang::interpreter(content), Some("python2".to_string()));

    let content = b"#!/usr/bin/env -S python -u\nprint('hello')";
    assert_eq!(Shebang::interpreter(content), Some("python".to_string()));

    let content = b"#!/bin/sh\nexec perl \"$0\" \"$@\"\nprint('hello')";
    assert_eq!(Shebang::interpreter(content), Some("perl".to_string()));

    let content = b"print('hello')";
    assert_eq!(Shebang::interpreter(content), None);
}

#[test]
fn shebang_env_flags_and_versions() {
    assert_eq!(Shebang::interpreter(b"#!/usr/bin/env --debug node\n"), Some("node".to_string()));
    assert_eq!(Shebang::interpreter(b"#!/usr/bin/env -VAR=1 ruby\n"), Some("ruby".to_string()));
    assert_eq!(Shebang::interpreter(b"#!/usr/local/bin/python3.11\n"), Some("python3".to_string()));
    assert_eq!(Shebang::interpreter(b"#!/usr/bin/node.js\n"), Some("node.js".to_string()));
    assert_eq!(Shebang::interpreter(b"#!/usr/bin/osascript -l JavaScript\n"), None);
    assert_eq!(Shebang::interpreter(b"#!/usr/bin/env\n"), None);
    assert_eq!(Shebang::interpreter(b"#!\n"), None);
    assert_eq!(Shebang::interpreter(b"#!/bin/sh\necho hi\n"), Some("sh".to_string()));
}

#[test]
fn test_vendored_paths() {
    assert!(is_vendored("vendor/jquery.min.js"));
    assert!(is_vendored("node_modules/react/index.js"));
    assert!(is_vendored("third-party/library.js"));
    assert!(is_vendored("deps/openssl/crypto/md5/md5.c"));
    assert!(is_vendored("path/to/cache/file.js"));
    assert!(is_vendored("dist/bundle.js"));
    assert!(is_vendored("path/to/jquery-3.4.1.min.js"));

    assert!(!is_vendored("src/main.js"));
    assert!(!is_vendored("lib/utils.js"));
    assert!(!is_vendored("app/components/button.js"));
}

#[test]
fn test_extension_strategy() {
    let reg = registry();
    let blob = FileBlob::from_data("test.rs", b"fn main() { println!(\"Hello, world!\"); }".to_vec());
    let languages = Extension.call(&blob, &reg, &vec![]);
    assert!(!languages.is_empty());
    assert!(names(&reg, &languages).iter().any(|n| n == "Rust"));
}

#[test]
fn test_extension_strategy_with_candidates() {
    let reg = registry();
    let blob = FileBlob::from_data("test.rs", b"fn main() { println!(\"Hello, world!\"); }".to_vec());
    let rust = id(&reg, "Rust");
    let python = id(&reg, "Python");

    let languages = Extension.call(&blob, &reg, &vec![rust, python]);
    assert_eq!(languages.len(), 1);
    assert_eq!(reg.language(languages[0]).name, "Rust");

    let languages = Extension.call(&blob, &reg, &vec![python]);
    assert!(languages.is_empty());
}

#[test]
fn extension_strategy_multi_part_and_generic() {
    let reg = registry();
    let erb = FileBlob::from_data("views/index.HTML.ERB", b"<%= x %>".to_vec());
    assert_eq!(names(&reg, &Extension.call(&erb, &reg, &vec![])), vec!["HTML+ERB"]);
    let header = FileBlob::from_data("vector.h", b"int x;".to_vec());
    assert_eq!(names(&reg, &Extension.call(&header, &reg, &vec![])), vec!["C", "C++", "Objective-C"]);
    let generic = FileBlob::from_data("tool.1", b".TH".to_vec());
    let python = id(&reg, "Python");
    assert_eq!(Extension.call(&generic, &reg, &vec![python]), vec![python]);
    assert!(Extension.call(&generic, &reg, &vec![]).is_empty());
}

#[test]
fn test_filename_strategy() {
    let reg = registry();
    let blob = FileBlob::from_data("Dockerfile", b"FROM ubuntu:20.04".to_vec());
    let languages = Filename.call(&blob, &reg, &vec![]);
    assert!(!languages.is_empty());
    assert!(names(&reg, &languages).iter().any(|n| n == "Dockerfile"));

    let blob = FileBlob::from_data("Makefile", b"all:\n\techo \"Hello\"".to_vec());
    let languages = Filename.call(&blob, &reg, &vec![]);
    assert!(!languages.is_empty());
    assert!(names(&reg, &languages).iter().any(|n| n == "Makefile"));
}

#[test]
fn test_filename_strategy_with_candidates() {
    let reg = registry();
    let blob = FileBlob::from_data("Dockerfile", b"FROM ubuntu:20.04".to_vec());
    let dockerfile = id(&reg, "Dockerfile");
    let python = id(&reg, "Python");

    let languages = Filename.call(&blob, &reg, &vec![dockerfile, python]);
    assert_eq!(languages.len(), 1);
    assert_eq!(reg.language(languages[0]).name, "Dockerfile");

    let languages = Filename.call(&blob, &reg, &vec![python]);
    assert!(languages.is_empty());
}

#[test]
fn test_manpage_strategy() {
    let reg = registry();
    let blob = FileBlob::from_data("test.1", b".TH TEST 1\n.SH NAME\ntest - a test command".to_vec());
    let languages = Manpage.call(&blob, &reg, &vec![]);
    assert!(!languages.is_empty());
    assert_eq!(reg.language(languages[0]).name, "Roff Manpage");
    assert_eq!(reg.language(languages[1]).name, "Roff");

    let blob = FileBlob::from_data("test.txt", b"This is not a manpage".to_vec());
    let languages = Manpage.call(&blob, &reg, &vec![]);
    assert!(languages.is_empty());
}

#[test]
fn test_manpage_strategy_with_candidates() {
    let reg = registry();
    let blob = FileBlob::from_data("test.1", b".TH TEST 1\n.SH NAME\ntest - a test command".to_vec());
    let python = id(&reg, "Python");
    let languages = Manpage.call(&blob, &reg, &vec![python]);
    assert_eq!(languages.len(), 1);
    assert_eq!(reg.language(languages[0]).name, "Python");
}

#[test]
fn test_modeline_strategy() {
    let reg = registry();
    let blob = FileBlob::from_data("script", b"#!/bin/sh\n# vim: ft=ruby\nputs 'hello'".to_vec());
    let languages = Modeline.call(&blob, &reg, &vec![]);
    assert!(!languages.is_empty());
    assert_eq!(reg.language(languages[0]).name, "Ruby");

    let blob = FileBlob::from_data("script", b"-*- mode: python -*-\nprint('hello')".to_vec());
    let languages = Modeline.call(&blob, &reg, &vec![]);
    assert!(!languages.is_empty());
    assert_eq!(reg.language(languages[0]).name, "Python");
}

#[test]
fn test_modeline_strategy_with_candidates() {
    let reg = registry();
    let blob = FileBlob::from_data("script", b"# vim: ft=ruby\nputs 'hello'".to_vec());
    let ruby = id(&reg, "Ruby");
    let python = id(&reg, "Python");

    let languages = Modeline.call(&blob, &reg, &vec![ruby, python]);
    assert_eq!(languages.len(), 1);
    assert_eq!(reg.language(languages[0]).name, "Ruby");

    let languages = Modeline.call(&blob, &reg, &vec![python]);
    assert!(languages.is_empty());
}

#[test]
fn modeline_in_last_lines_and_vimball() {
    let reg = registry();
    let text = "line 1\nline 2\nline 3\nline 4\nline 5\nline 6\nline 7\n# vim: ft=python\n";
    let blob = FileBlob::from_data("notes", text.as_bytes().to_vec());
    assert_eq!(names(&reg, &Modeline.call(&blob, &reg, &vec![])), vec!["Python"]);
    let blob = FileBlob::from_data("archive.vba", b"\" Vimball Archiver\nUseVimball\n# vim: ft=python\n".to_vec());
    assert!(Modeline.call(&blob, &reg, &vec![]).is_empty());
    let link = FileBlob::symlink("notes");
    assert!(Modeline.call(&link, &reg, &vec![]).is_empty());
}

#[test]
fn test_shebang_strategy() {
    let reg = registry();
    let blob = FileBlob::from_data("script.py", b"#!/usr/bin/env python3\nprint('Hello')".to_vec());
    let languages = Shebang.call(&blob, &reg, &vec![]);
    assert!(!languages.is_empty());
    assert!(names(&reg, &languages).iter().any(|n| n == "Python"));

    let blob = FileBlob::from_data("script.sh", b"#!/bin/bash\necho 'Hello'".to_vec());
    let languages = Shebang.call(&blob, &reg, &vec![]);
    assert!(!languages.is_empty());
    assert!(names(&reg, &languages).iter().any(|n| n == "Shell"));
}

#[test]
fn test_shebang_strategy_with_candidates() {
    let reg = registry();
    let blob = FileBlob::from_data("script.py", b"#!/usr/bin/env python\nprint('Hello')".to_vec());
    let python = id(&reg, "Python");
    let ruby = id(&reg, "Ruby");

    let languages = Shebang.call(&blob, &reg, &vec![python, ruby]);
    assert_eq!(languages.len(), 1);
    assert_eq!(reg.language(languages[0]).name, "Python");

    let languages = Shebang.call(&blob, &reg, &vec![ruby]);
    assert!(languages.is_empty());
}

#[test]
fn test_xml_strategy() {
    let reg = registry();
    let blob = FileBlob::from_data("data.xml", b"<?xml version=\"1.0\" encoding=\"UTF-8\"?>\n<root></root>".to_vec());
    let languages = Xml.call(&blob, &reg, &vec![]);
    assert!(!languages.is_empty());
    assert_eq!(reg.language(languages[0]).name, "XML");

    let blob = FileBlob::from_data("data.txt", b"This is not XML content".to_vec());
    let languages = Xml.call(&blob, &reg, &vec![]);
    assert!(languages.is_empty());
}

#[test]
fn test_xml_strategy_with_candidates() {
    let reg = registry();
    let blob = FileBlob::from_data("data.xml", b"<?xml version=\"1.0\" encoding=\"UTF-8\"?>\n<root></root>".to_vec());
    let python = id(&reg, "Python");

    let languages = Xml.call(&blob, &reg, &vec![python]);
    assert_eq!(languages.len(), 1);
    assert_eq!(reg.language(languages[0]).name, "Python");

    let languages = Xml.call(&blob, &reg, &vec![]);
    assert_eq!(languages.len(), 1);
    assert_eq!(reg.language(languages[0]).name, "XML");
}

#[test]
fn xml_declaration_beyond_second_line_is_ignored() {
    let reg = registry();
    let blob = FileBlob::from_data("data", b"one\ntwo\n<?xml version=\"1.0\"?>\n".to_vec());
    assert!(Xml.call(&blob, &reg, &vec![]).is_empty());
}

#[test]
fn test_cpp_header_heuristic() {
    let reg = registry();
    let blob = FileBlob::from_data("vector.h", b"#include <vector>\n#include <string>\n".to_vec());
    let languages = Heuristics.call(&blob, &reg, &vec![]);
    assert!(!languages.is_empty());
    assert_eq!(reg.language(languages[0]).name, "C++");

    let blob = FileBlob::from_data("stdio.h", b"#include <stdio.h>\n#include <stdlib.h>\n".to_vec());
    let languages = Heuristics.call(&blob, &reg, &vec![]);
    assert!(!languages.is_empty());
    assert_eq!(reg.language(languages[0]).name, "C");
}

#[test]
fn test_objective_c_heuristic() {
    let reg = registry();
    let blob = FileBlob::from_data("view.h", b"#import <UIKit/UIKit.h>\n@interface MyView : UIView\n@end".to_vec());
    let languages = Heuristics.call(&blob, &reg, &vec![]);
    assert!(!languages.is_empty());
    assert_eq!(reg.language(languages[0]).name, "Objective-C");
}

#[test]
fn test_jsx_heuristic() {
    let reg = registry();
    if Language::find_by_name(&reg, "JSX").is_none() {
        return;
    }
    let blob = FileBlob::from_data(
        "component.js",
        b"import React from 'react';\nexport default () => <div>Hello</div>;".to_vec(),
    );
    let languages = Heuristics.call(&blob, &reg, &vec![]);
    assert!(!languages.is_empty());
    assert_eq!(reg.language(languages[0]).name, "JSX");

    let blob = FileBlob::from_data("script.js", b"function hello() { return 'world'; }".to_vec());
    let languages = Heuristics.call(&blob, &reg, &vec![]);
    assert!(!languages.is_empty());
    assert_eq!(reg.language(languages[0]).name, "JavaScript");
}

#[test]
fn test_heuristics_with_candidates() {
    let reg = registry();
    let blob = FileBlob::from_data("vector.h", b"#include <vector>\n#include <string>\n".to_vec());
    let c = id(&reg, "C");
    let cpp = id(&reg, "C++");

    let languages = Heuristics.call(&blob, &reg, &vec![c, cpp]);
    assert_eq!(languages.len(), 1);
    assert_eq!(reg.language(languages[0]).name, "C++");

    let languages = Heuristics.call(&blob, &reg, &vec![c]);
    assert!(languages.is_empty());
}

#[test]
fn manpage_heuristic_tells_manual_pages_from_roff() {
    let reg = registry();
    let page = FileBlob::from_data("tool.1", b".TH TOOL 1\n.SH NAME\n".to_vec());
    assert_eq!(names(&reg, &Heuristics.call(&page, &reg, &vec![])), vec!["Roff Manpage"]);
    let plain = FileBlob::from_data("notes.1", b".PP\nplain roff\n".to_vec());
    assert_eq!(names(&reg, &Heuristics.call(&plain, &reg, &vec![])), vec!["Roff"]);
}
