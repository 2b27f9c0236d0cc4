use linguist::samples::{extract_sample_data, Sample};

fn sample(language: &str, path: &str, extension: Option<&str>, interpreter: Option<&str>, filename: Option<&str>) -> Sample {
    Sample {
        path: path.to_string(),
        language: language.to_string(),
        filename: filename.map(str::to_string),
        interpreter: interpreter.map(str::to_string),
        extension: extension.map(str::to_string),
    }
}

#[test]
fn test_extract_sample_data() {
    let samples = vec![
        sample("Ruby", "samples/Ruby/a.rb", Some(".rb"), Some("ruby"), None),
        sample("JavaScript", "samples/JavaScript/a.js", Some(".js"), None, None),
        sample("Ruby", "samples/Ruby/b.rb", Some(".rb"), None, None),
        sample("Python", "samples/Python/a.py", Some(".py"), Some("python"), None),
        sample("Ruby", "samples/Ruby/filenames/Rakefile", None, None, Some("Rakefile")),
        sample("Ruby", "samples/Ruby/c.rake", Some(".rake"), Some("ruby"), None),
        sample("Text", "samples/Text/README", None, None, None),
    ];
    let data = extract_sample_data(&samples);
    let names: Vec<&str> = data.iter().map(|(l, _)| l.as_str()).collect();
    assert_eq!(names, vec!["JavaScript", "Python", "Ruby"]);
    for lang in ["JavaScript", "Python", "Ruby"] {
        let (_, d) = data.iter().find(|(l, _)| l == lang).unwrap();
        assert!(!d.extensions.is_empty() || !d.interpreters.is_empty() || !d.filenames.is_empty());
    }
    let (_, ruby) = data.iter().find(|(l, _)| l == "Ruby").unwrap();
    assert_eq!(ruby.extensions, vec![".rb".to_string(), ".rake".to_string()]);
    assert_eq!(ruby.interpreters, vec!["ruby".to_string()]);
    assert_eq!(ruby.filenames, vec!["Rakefile".to_string()]);
    assert!(extract_sample_data(&vec![]).is_empty());
}
