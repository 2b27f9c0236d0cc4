use linguist::blob::FileBlob;
use linguist::catalogue::builtin_languages;
use linguist::detect;
use linguist::language::{CatalogueError, Language, LanguageType, Registry, Selection};
use linguist::strategy::extension::Extension;
use linguist::strategy::filename::Filename;
use linguist::strategy::manpage::Manpage;
use linguist::strategy::modeline::Modeline;
use linguist::strategy::shebang::Shebang;
use linguist::strategy::xml::Xml;
use linguist::strategy::StrategyType;
use linguist::heuristics::Heuristics;
use linguist::classifier::Classifier;

fn registry() -> Registry {
    Registry::builtin().unwrap()
}

fn detected(reg: &Registry, path: &str, data: &[u8]) -> Option<String> {
    let blob = FileBlob::from_data(path, data.to_vec());
    detect(&blob, reg, false).map(|i| reg.language(i).name.clone())
}

#[test]
fn test_detect_ruby() {
    let reg = registry();
    let content = "#!/usr/bin/env ruby\nputs 'Hello, world!'";
    let blob = FileBlob::from_data("test.rb", content.as_bytes().to_vec());
    let language = detect(&blob, &reg, false).unwrap();
    assert_eq!(reg.language(language).name, "Ruby");
}

#[test]
fn test_find_by_name() {
    let reg = registry();
    let rust = reg.language(Language::find_by_name(&reg, "Rust").unwrap());
    assert_eq!(rust.name, "Rust");
    assert_eq!(rust.ace_mode.as_deref(), Some("rust"));

    let rust = reg.language(Language::find_by_name(&reg, "rust").unwrap());
    assert_eq!(rust.name, "Rust");
}

#[test]
fn find_by_name_retries_before_comma() {
    let reg = registry();
    let i = Language::find_by_name(&reg, "Ruby, version 3").unwrap();
    assert_eq!(reg.language(i).name, "Ruby");
    assert_eq!(Language::find_by_name(&reg, "Nope, Ruby"), None);
    let j = Language::find_by_alias(&reg, " golang , go").unwrap();
    assert_eq!(reg.language(j).name, "Go");
}

#[test]
fn test_find_by_extension() {
    let reg = registry();
    let rust_langs = Language::find_by_extension(&reg, "hello.rs");
    assert_eq!(rust_langs.len(), 1);
    assert_eq!(reg.language(rust_langs[0]).name, "Rust");

    let js_langs = Language::find_by_extension(&reg, "script.js");
    assert_eq!(js_langs.len(), 1);
    assert_eq!(reg.language(js_langs[0]).name, "JavaScript");
}

#[test]
fn find_by_extension_prefers_longest_known_extension() {
    let reg = registry();
    let found = Language::find_by_extension(&reg, "app/views/index.html.erb");
    assert_eq!(found.len(), 1);
    assert_eq!(reg.language(found[0]).name, "HTML+ERB");
    let found = Language::find_by_extension(&reg, "dir.rs/README");
    assert!(found.is_empty());
    let found = Language::find_by_extension(&reg, "MAIN.RS");
    assert_eq!(reg.language(found[0]).name, "Rust");
}

#[test]
fn test_find_by_filename() {
    let reg = registry();
    let docker_langs = Language::find_by_filename(&reg, "Dockerfile");
    assert!(!docker_langs.is_empty());
    assert_eq!(reg.language(docker_langs[0]).name, "Dockerfile");
    let nested = Language::find_by_filename(&reg, "images/base/Dockerfile");
    assert_eq!(nested, docker_langs);
    assert!(Language::find_by_filename(&reg, "dockerfile").is_empty());
}

#[test]
fn find_by_interpreter_and_id() {
    let reg = registry();
    let found = Language::find_by_interpreter(&reg, "node");
    assert_eq!(found.len(), 1);
    assert_eq!(reg.language(found[0]).name, "JavaScript");
    let deno = Language::find_by_interpreter(&reg, "deno");
    let names: Vec<&str> = deno.iter().map(|&i| reg.language(i).name.as_str()).collect();
    assert_eq!(names, vec!["JavaScript", "TypeScript"]);
    let rust = Language::find_by_id(&reg, 327).unwrap();
    assert_eq!(reg.language(rust).name, "Rust");
    assert_eq!(Language::find_by_id(&reg, 999_999), None);
}

#[test]
fn language_test_popular_languages() {
    let reg = registry();
    let popular = Language::popular(&reg);
    assert!(!popular.is_empty());
    assert!(popular.iter().any(|&l| reg.language(l).name == "JavaScript"));
    assert!(popular.iter().any(|&l| reg.language(l).name == "Python"));
}

#[test]
fn languages_test_popular_languages() {
    let reg = registry();
    let popular: Vec<String> = Language::popular(&reg).iter().map(|&i| reg.language(i).name.clone()).collect();
    assert!(popular.contains(&"JavaScript".to_string()));
    assert!(popular.contains(&"Python".to_string()));
    assert!(popular.contains(&"Ruby".to_string()));
}

#[test]
fn listings_are_sorted_by_folded_name() {
    let reg = registry();
    for which in [Selection::Popular, Selection::Unpopular, Selection::Colored] {
        let list = reg.listing(which);
        let keys: Vec<String> = list.iter().map(|&i| reg.language(i).name.to_lowercase()).collect();
        let mut sorted = keys.clone();
        sorted.sort();
        assert_eq!(keys, sorted);
    }
    let unpopular: Vec<String> = Language::unpopular(&reg).iter().map(|&i| reg.language(i).name.clone()).collect();
    assert_eq!(unpopular.first().map(String::as_str), Some("Dockerfile"));
    assert!(!unpopular.contains(&"Python".to_string()));
    let colors = Language::colors(&reg);
    assert!(colors.iter().all(|&i| reg.language(i).color.is_some()));
    assert!(!colors.iter().any(|&i| reg.language(i).name == "Markdown"));
}

#[test]
fn test_load_language_data() {
    let reg = registry();
    assert!(reg.len() > 0);
    for name in ["rust", "javascript", "python"] {
        assert!(Language::find_by_name(&reg, name).is_some());
    }
    for ext in ["x.rs", "x.js", "x.py"] {
        assert!(!Language::find_by_extension(&reg, ext).is_empty());
    }
    for interp in ["python", "node"] {
        assert!(!Language::find_by_interpreter(&reg, interp).is_empty());
    }
    for file in ["Makefile", "Dockerfile"] {
        assert!(!Language::find_by_filename(&reg, file).is_empty());
    }
}

#[test]
fn lookup_finds_every_name_and_alias() {
    let reg = registry();
    for (i, lang) in Language::all(&reg).iter().enumerate() {
        assert_eq!(Language::lookup(&reg, &lang.name), Some(i));
        assert_eq!(Language::lookup(&reg, &lang.name.to_uppercase()), Some(i));
        for alias in &lang.aliases {
            assert_eq!(Language::lookup(&reg, alias), Some(i));
        }
    }
    assert_eq!(Language::lookup(&reg, ""), None);
    assert_eq!(Language::lookup(&reg, "no such language"), None);
    let golang = Language::lookup(&reg, "golang").unwrap();
    assert_eq!(reg.language(golang).name, "Go");
}

#[test]
fn group_default_alias_and_flags() {
    let reg = registry();
    let jsx = Language::find_by_name(&reg, "JSX").unwrap();
    let js = Language::find_by_name(&reg, "JavaScript").unwrap();
    assert_eq!(Language::group(&reg, jsx), Some(js));
    assert_eq!(Language::group(&reg, js), Some(js));
    let manpage = reg.language(Language::find_by_name(&reg, "Roff Manpage").unwrap());
    assert_eq!(manpage.default_alias(), "roff-manpage");
    assert!(reg.language(js).is_popular());
    assert!(!reg.language(js).is_unpopular());
    assert!(manpage.is_unpopular());
    assert_eq!(LanguageType::default(), LanguageType::Other);
}

fn minimal(name: &str, id: usize) -> Language {
    let mut l = builtin_languages()[0].clone();
    l.name = name.to_string();
    l.language_id = id;
    l.aliases = vec![];
    l.group_name = None;
    l
}

#[test]
fn catalogue_errors() {
    let reg = Registry::new(vec![minimal("A", 1), minimal("B", 2)]);
    assert!(reg.is_ok());

    let r = Registry::new(vec![minimal("", 1)]);
    assert!(matches!(r, Err(CatalogueError::BadLabel(n)) if n.is_empty()));
    let r = Registry::new(vec![minimal("A,B", 1)]);
    assert!(matches!(r, Err(CatalogueError::BadLabel(n)) if n == "A,B"));

    let r = Registry::new(vec![minimal("Same", 1), minimal("same", 2)]);
    assert!(matches!(r, Err(CatalogueError::DuplicateLabel(n)) if n == "Same"));
    let mut b = minimal("B", 2);
    b.aliases = vec!["a".to_string()];
    let r = Registry::new(vec![minimal("A", 1), b]);
    assert!(matches!(r, Err(CatalogueError::DuplicateLabel(n)) if n == "A"));

    let r = Registry::new(vec![minimal("A", 7), minimal("B", 7)]);
    assert!(matches!(r, Err(CatalogueError::DuplicateId(7))));

    let mut g = minimal("G", 3);
    g.group_name = Some("Missing".to_string());
    let r = Registry::new(vec![minimal("A", 1), g]);
    assert!(matches!(r, Err(CatalogueError::UnknownGroup(n)) if n == "G"));
}

#[test]
fn scenario_extension_detection() {
    let reg = registry();
    assert_eq!(detected(&reg, "src/main.rs", b"fn main() { println!(\"hi\"); }").as_deref(), Some("Rust"));
}

#[test]
fn scenario_shebang_over_extension() {
    let reg = registry();
    assert_eq!(detected(&reg, "script", b"#!/usr/bin/env python3\nprint('x')").as_deref(), Some("Python"));
    assert_eq!(detected(&reg, "script", b"#!/usr/bin/env ruby\nprint('x')").as_deref(), Some("Ruby"));
}

#[test]
fn scenario_modeline_wins() {
    let reg = registry();
    assert_eq!(detected(&reg, "notes", b"# vim: ft=ruby\nputs :x").as_deref(), Some("Ruby"));
    assert_eq!(detected(&reg, "notes.py", b"# -*- mode: ruby -*-\nputs :x").as_deref(), Some("Ruby"));
}

#[test]
fn scenario_heuristic_disambiguation() {
    let reg = registry();
    assert_eq!(detected(&reg, "vector.h", b"#include <vector>\n").as_deref(), Some("C++"));
    assert_eq!(
        detected(&reg, "vector.h", b"#import <UIKit/UIKit.h>\n@interface Thing : NSObject\n@end\n").as_deref(),
        Some("Objective-C")
    );
    assert_eq!(detected(&reg, "vector.h", b"#include <stdio.h>\n").as_deref(), Some("C"));
}

#[test]
fn scenario_binary_shortcut() {
    let reg = registry();
    assert_eq!(detected(&reg, "a.bin", &[0, 1, 2, 0, 5]), None);
}

#[test]
fn scenario_manpage_fallback() {
    let reg = registry();
    assert_eq!(detected(&reg, "tool.1", b".TH TOOL 1\n.SH NAME\n").as_deref(), Some("Roff Manpage"));
    let blob = FileBlob::from_data("tool.1", b".TH TOOL 1\n.SH NAME\n".to_vec());
    let found = Manpage.call(&blob, &reg, &vec![]);
    assert!(found.iter().any(|&i| reg.language(i).name == "Roff"));
}

#[test]
fn refused_blobs_get_no_language() {
    let reg = registry();
    assert_eq!(detected(&reg, "main.rs", b""), None);
    let empty = FileBlob::from_data("Makefile", vec![]);
    assert_eq!(detect(&empty, &reg, true).map(|i| reg.language(i).name.clone()).as_deref(), Some("Makefile"));
    assert_eq!(detected(&reg, "logo.png", b"fn main() {}"), None);
    assert_eq!(detected(&reg, "LOGO.PNG", b"fn main() {}"), None);
    assert_eq!(detected(&reg, "main.rs", &[0xff, 0xfe, 0x41]), None);
}

#[test]
fn xml_detected_without_other_evidence() {
    let reg = registry();
    assert_eq!(detected(&reg, "config", b"<?xml version=\"1.0\"?>\n<a/>").as_deref(), Some("XML"));
    assert_eq!(detected(&reg, "unknown.zzz", b"just words"), None);
}

#[test]
fn every_strategy_keeps_to_candidates() {
    let reg = registry();
    let python = Language::find_by_name(&reg, "Python").unwrap();
    let cands = vec![python];
    let blobs = [
        FileBlob::from_data("Dockerfile", b"FROM x".to_vec()),
        FileBlob::from_data("a.rs", b"fn main() {}".to_vec()),
        FileBlob::from_data("s", b"#!/usr/bin/env ruby\n".to_vec()),
        FileBlob::from_data("n", b"# vim: ft=ruby\n".to_vec()),
        FileBlob::from_data("v.h", b"#include <vector>\n".to_vec()),
        FileBlob::from_data("t.1", b".TH T 1\n.SH NAME\n".to_vec()),
        FileBlob::from_data("d.xml", b"<?xml version=\"1.0\"?>".to_vec()),
    ];
    let strategies = [
        StrategyType::Modeline(Modeline),
        StrategyType::Filename(Filename),
        StrategyType::Shebang(Shebang),
        StrategyType::Extension(Extension),
        StrategyType::Xml(Xml),
        StrategyType::Manpage(Manpage),
        StrategyType::Heuristics(Heuristics),
        StrategyType::Classifier(Classifier),
    ];
    for blob in &blobs {
        for s in &strategies {
            let r = s.call(blob, &reg, &cands);
            assert!(r.iter().all(|x| cands.contains(x)));
        }
    }
}

#[test]
fn languages_without_aliases_get_their_default_alias() {
    let reg = Registry::new(vec![minimal("Visual Basic", 1), minimal("Roff Manpage", 2)]).unwrap();
    let vb = Language::lookup(&reg, "visual-basic").unwrap();
    assert_eq!(reg.language(vb).name, "Visual Basic");
    assert_eq!(reg.language(vb).aliases, vec!["visual-basic".to_string()]);
    let builtin = registry();
    let manpage = Language::lookup(&builtin, "roff-manpage").unwrap();
    assert_eq!(builtin.language(manpage).name, "Roff Manpage");
}

#[test]
fn popularity_from_a_list_of_names() {
    let langs = vec![minimal("A", 1), minimal("B", 2)];
    let marked = linguist::language::mark_popular(langs, &vec!["B".to_string()]);
    assert!(!marked[0].popular);
    assert!(marked[1].popular);
    assert_eq!(marked[1].name, "B");
}

#[test]
fn language_type_from_its_word() {
    assert_eq!(LanguageType::from_name("programming"), LanguageType::Programming);
    assert_eq!(LanguageType::from_name("markup"), LanguageType::Markup);
    assert_eq!(LanguageType::from_name("data"), LanguageType::Data);
    assert_eq!(LanguageType::from_name("prose"), LanguageType::Prose);
    assert_eq!(LanguageType::from_name("Programming"), LanguageType::Other);
}
