//! The catalogue of languages that ships with the library.
use vstd::prelude::*;

use crate::language::{
    alias_at, alias_count, catalogue_valid, filled_language, lemma_same_labels_agree, same_labels,
    same_language_labels, CatalogueError, Language, LanguageType, Registry,
};
use crate::text::views;

verus! {

/// What the catalogue says of a language, beyond its decoration.
pub struct RecordView {
    pub name: Seq<char>,
    pub language_type: LanguageType,
    pub language_id: usize,
    pub aliases: Seq<Seq<char>>,
    pub extensions: Seq<Seq<char>>,
    pub filenames: Seq<Seq<char>>,
    pub interpreters: Seq<Seq<char>>,
    pub group_name: Option<Seq<char>>,
    pub popular: bool,
}

/// The record of a language.
pub open spec fn record_view(l: Language) -> RecordView {
    RecordView {
        name: l.name@,
        language_type: l.language_type,
        language_id: l.language_id,
        aliases: views(l.aliases@),
        extensions: views(l.extensions@),
        filenames: views(l.filenames@),
        interpreters: views(l.interpreters@),
        group_name: match l.group_name {
            Some(g) => Some(g@),
            None => None,
        },
        popular: l.popular,
    }
}

/// The records of a list of languages.
pub open spec fn records_of(ls: Seq<Language>) -> Seq<RecordView> {
    ls.map_values(|l: Language| record_view(l))
}

/// The built-in catalogue, in registry order.
pub open spec fn builtin_records() -> Seq<RecordView> {
    seq![
        RecordView {
            name: "C"@,
            language_type: LanguageType::Programming,
            language_id: 41,
            aliases: seq!["c"@],
            extensions: seq![".c"@, ".h"@],
            filenames: Seq::<Seq<char>>::empty(),
            interpreters: seq!["tcc"@],
            group_name: None,
            popular: true,
        },
        RecordView {
            name: "C++"@,
            language_type: LanguageType::Programming,
            language_id: 43,
            aliases: seq!["cpp"@],
            extensions: seq![".cpp"@, ".cc"@, ".cxx"@, ".c++"@, ".hpp"@, ".hh"@, ".hxx"@, ".h"@],
            filenames: Seq::<Seq<char>>::empty(),
            interpreters: Seq::<Seq<char>>::empty(),
            group_name: None,
            popular: true,
        },
        RecordView {
            name: "CSS"@,
            language_type: LanguageType::Markup,
            language_id: 50,
            aliases: seq!["css"@],
            extensions: seq![".css"@],
            filenames: Seq::<Seq<char>>::empty(),
            interpreters: Seq::<Seq<char>>::empty(),
            group_name: None,
            popular: true,
        },
        RecordView {
            name: "Dockerfile"@,
            language_type: LanguageType::Programming,
            language_id: 89,
            aliases: seq!["containerfile"@],
            extensions: seq![".dockerfile"@],
            filenames: seq!["Dockerfile"@, "Containerfile"@],
            interpreters: Seq::<Seq<char>>::empty(),
            group_name: None,
            popular: false,
        },
        RecordView {
            name: "Go"@,
            language_type: LanguageType::Programming,
            language_id: 132,
            aliases: seq!["golang"@],
            extensions: seq![".go"@],
            filenames: Seq::<Seq<char>>::empty(),
            interpreters: Seq::<Seq<char>>::empty(),
            group_name: None,
            popular: true,
        },
        RecordView {
            name: "HTML"@,
            language_type: LanguageType::Markup,
            language_id: 146,
            aliases: seq!["xhtml"@],
            extensions: seq![".html"@, ".htm"@, ".xhtml"@],
            filenames: Seq::<Seq<char>>::empty(),
            interpreters: Seq::<Seq<char>>::empty(),
            group_name: None,
            popular: true,
        },
        RecordView {
            name: "HTML+ERB"@,
            language_type: LanguageType::Markup,
            language_id: 148,
            aliases: seq!["erb"@, "rhtml"@, "html+ruby"@],
            extensions: seq![".erb"@, ".html.erb"@, ".erb.deface"@],
            filenames: Seq::<Seq<char>>::empty(),
            interpreters: Seq::<Seq<char>>::empty(),
            group_name: Some("HTML"@),
            popular: false,
        },
        RecordView {
            name: "JSON"@,
            language_type: LanguageType::Data,
            language_id: 174,
            aliases: seq!["geojson"@, "jsonl"@],
            extensions: seq![".json"@, ".jsonl"@, ".geojson"@],
            filenames: seq![".arcconfig"@, "composer.lock"@],
            interpreters: Seq::<Seq<char>>::empty(),
            group_name: None,
            popular: true,
        },
        RecordView {
            name: "JSX"@,
            language_type: LanguageType::Programming,
            language_id: 178,
            aliases: seq!["jsx"@],
            extensions: seq![".jsx"@],
            filenames: Seq::<Seq<char>>::empty(),
            interpreters: Seq::<Seq<char>>::empty(),
            group_name: Some("JavaScript"@),
            popular: false,
        },
        RecordView {
            name: "Java"@,
            language_type: LanguageType::Programming,
            language_id: 181,
            aliases: seq!["java"@],
            extensions: seq![".java"@, ".jav"@],
            filenames: Seq::<Seq<char>>::empty(),
            interpreters: Seq::<Seq<char>>::empty(),
            group_name: None,
            popular: true,
        },
        RecordView {
            name: "JavaScript"@,
            language_type: LanguageType::Programming,
            language_id: 183,
            aliases: seq!["js"@, "node"@],
            extensions: seq![".js"@, ".cjs"@, ".mjs"@, ".es6"@, ".jsm"@],
            filenames: seq!["Jakefile"@],
            interpreters: seq!["node"@, "nodejs"@, "deno"@, "qjs"@],
            group_name: None,
            popular: true,
        },
        RecordView {
            name: "Makefile"@,
            language_type: LanguageType::Programming,
            language_id: 220,
            aliases: seq!["bsdmake"@, "make"@, "mf"@],
            extensions: seq![".mak"@, ".make"@, ".mk"@, ".mkfile"@],
            filenames: seq!["Makefile"@, "makefile"@, "GNUmakefile"@, "BSDmakefile"@],
            interpreters: seq!["make"@],
            group_name: None,
            popular: false,
        },
        RecordView {
            name: "Markdown"@,
            language_type: LanguageType::Prose,
            language_id: 222,
            aliases: seq!["md"@, "pandoc"@],
            extensions: seq![".md"@, ".markdown"@, ".mdown"@, ".mkd"@],
            filenames: seq!["contents.lr"@],
            interpreters: Seq::<Seq<char>>::empty(),
            group_name: None,
            popular: false,
        },
        RecordView {
            name: "Objective-C"@,
            language_type: LanguageType::Programming,
            language_id: 257,
            aliases: seq!["obj-c"@, "objc"@, "objectivec"@],
            extensions: seq![".m"@, ".h"@],
            filenames: Seq::<Seq<char>>::empty(),
            interpreters: Seq::<Seq<char>>::empty(),
            group_name: None,
            popular: true,
        },
        RecordView {
            name: "PHP"@,
            language_type: LanguageType::Programming,
            language_id: 272,
            aliases: seq!["inc"@],
            extensions: seq![".php"@, ".phtml"@, ".php3"@, ".php4"@, ".php5"@],
            filenames: seq![".php"@, ".php_cs"@],
            interpreters: seq!["php"@],
            group_name: None,
            popular: true,
        },
        RecordView {
            name: "Perl"@,
            language_type: LanguageType::Programming,
            language_id: 282,
            aliases: seq!["cperl"@],
            extensions: seq![".pl"@, ".pm"@, ".cgi"@, ".t"@],
            filenames: seq!["Makefile.PL"@, "cpanfile"@],
            interpreters: seq!["cperl"@, "perl"@],
            group_name: None,
            popular: true,
        },
        RecordView {
            name: "Python"@,
            language_type: LanguageType::Programming,
            language_id: 303,
            aliases: seq!["python3"@, "rusthon"@],
            extensions: seq![".py"@, ".pyi"@, ".pyw"@, ".gyp"@, ".wsgi"@],
            filenames: seq!["SConstruct"@, "SConscript"@, "Snakefile"@, "wscript"@],
            interpreters: seq!["python"@, "python2"@, "python3"@, "py"@, "pypy"@, "pypy3"@],
            group_name: None,
            popular: true,
        },
        RecordView {
            name: "Roff"@,
            language_type: LanguageType::Markup,
            language_id: 141,
            aliases: seq!["groff"@, "man"@, "manpage"@, "mdoc"@, "nroff"@, "troff"@],
            extensions: seq![".roff"@, ".tmac"@, ".me"@, ".ms"@, ".mdoc"@, ".man"@, ".nr"@],
            filenames: seq!["eqnrc"@, "troffrc"@],
            interpreters: Seq::<Seq<char>>::empty(),
            group_name: None,
            popular: false,
        },
        RecordView {
            name: "Roff Manpage"@,
            language_type: LanguageType::Markup,
            language_id: 612,
            aliases: seq!["roff-manpage"@],
            extensions: seq![".1"@, ".2"@, ".3"@, ".4"@, ".5"@, ".6"@, ".7"@, ".8"@, ".9"@, ".1in"@, ".3pm"@],
            filenames: Seq::<Seq<char>>::empty(),
            interpreters: Seq::<Seq<char>>::empty(),
            group_name: Some("Roff"@),
            popular: false,
        },
        RecordView {
            name: "Ruby"@,
            language_type: LanguageType::Programming,
            language_id: 326,
            aliases: seq!["jruby"@, "macruby"@, "rake"@, "rb"@, "rbx"@],
            extensions: seq![".rb"@, ".builder"@, ".gemspec"@, ".rake"@, ".ru"@, ".thor"@],
            filenames: seq!["Gemfile"@, "Rakefile"@, "Guardfile"@, ".irbrc"@, ".pryrc"@],
            interpreters: seq!["ruby"@, "macruby"@, "rake"@, "jruby"@, "rbx"@],
            group_name: None,
            popular: true,
        },
        RecordView {
            name: "Rust"@,
            language_type: LanguageType::Programming,
            language_id: 327,
            aliases: seq!["rs"@],
            extensions: seq![".rs"@, ".rs.in"@],
            filenames: Seq::<Seq<char>>::empty(),
            interpreters: seq!["rust-script"@],
            group_name: None,
            popular: false,
        },
        RecordView {
            name: "Shell"@,
            language_type: LanguageType::Programming,
            language_id: 346,
            aliases: seq!["sh"@, "shell-script"@, "bash"@, "zsh"@, "envrc"@],
            extensions: seq![".sh"@, ".bash"@, ".bats"@, ".command"@, ".ksh"@, ".zsh"@],
            filenames: seq![".bashrc"@, ".bash_profile"@, ".profile"@, ".zshrc"@, "PKGBUILD"@],
            interpreters: seq!["ash"@, "bash"@, "dash"@, "ksh"@, "mksh"@, "pdksh"@, "sh"@, "zsh"@],
            group_name: None,
            popular: true,
        },
        RecordView {
            name: "Text"@,
            language_type: LanguageType::Prose,
            language_id: 372,
            aliases: seq!["fundamental"@, "plain text"@],
            extensions: seq![".txt"@, ".fr"@, ".nb"@, ".ncl"@, ".no"@],
            filenames: seq!["COPYING"@, "LICENSE"@, "README.me"@, "INSTALL"@],
            interpreters: Seq::<Seq<char>>::empty(),
            group_name: None,
            popular: false,
        },
        RecordView {
            name: "TypeScript"@,
            language_type: LanguageType::Programming,
            language_id: 378,
            aliases: seq!["ts"@],
            extensions: seq![".ts"@, ".cts"@, ".mts"@],
            filenames: Seq::<Seq<char>>::empty(),
            interpreters: seq!["deno"@, "ts-node"@, "tsx"@],
            group_name: None,
            popular: true,
        },
        RecordView {
            name: "XML"@,
            language_type: LanguageType::Data,
            language_id: 399,
            aliases: seq!["rss"@, "xsd"@, "wsdl"@],
            extensions: seq![".xml"@, ".xsd"@, ".xsl"@, ".xslt"@, ".plist"@, ".svg"@, ".csproj"@],
            filenames: seq![".classpath"@, ".project"@, "Web.config"@, "packages.config"@],
            interpreters: Seq::<Seq<char>>::empty(),
            group_name: None,
            popular: true,
        },
        RecordView {
            name: "YAML"@,
            language_type: LanguageType::Data,
            language_id: 407,
            aliases: seq!["yml"@],
            extensions: seq![".yml"@, ".yaml"@, ".yaml-tmlanguage"@, ".sublime-syntax"@],
            filenames: seq![".clang-format"@, ".clang-tidy"@, ".gemrc"@, "glide.lock"@],
            interpreters: Seq::<Seq<char>>::empty(),
            group_name: None,
            popular: false,
        }
    ]
}

/// Owned copies of a list of strings.
fn owned(items: &[&str]) -> (r: Vec<String>)
    ensures
        r@.len() == items@.len(),
        forall|j: int| 0 <= j < items@.len() ==> #[trigger] r@[j]@ == items@[j]@,
{
    let mut out: Vec<String> = Vec::new();
    let mut j: usize = 0;
    while j < items.len()
        invariant
            j <= items@.len(),
            out@.len() == j,
            forall|q: int| 0 <= q < j ==> #[trigger] out@[q]@ == items@[q]@,
        decreases items@.len() - j,
    {
        out.push(String::from_str(items[j]));
        j = j + 1;
    }
    out
}

/// A language record with the given identity and matching data; the decoration
/// fields are left empty.
fn record(
    name: &str,
    language_type: LanguageType,
    language_id: usize,
    extensions: &[&str],
    filenames: &[&str],
    interpreters: &[&str],
) -> (r: Language)
    ensures
        r.name@ == name@,
        r.language_type == language_type,
        r.language_id == language_id,
        r.extensions@.len() == extensions@.len(),
        r.filenames@.len() == filenames@.len(),
        r.interpreters@.len() == interpreters@.len(),
        forall|j: int| 0 <= j < extensions@.len() ==> #[trigger] r.extensions@[j]@ == extensions@[j]@,
        forall|j: int| 0 <= j < filenames@.len() ==> #[trigger] r.filenames@[j]@ == filenames@[j]@,
        forall|j: int| 0 <= j < interpreters@.len() ==> #[trigger] r.interpreters@[j]@ == interpreters@[j]@,
        r.aliases@.len() == 0,
        r.group_name is None,
        !r.popular,
{
    Language {
        name: String::from_str(name),
        fs_name: None,
        language_type,
        color: None,
        aliases: Vec::new(),
        tm_scope: None,
        ace_mode: None,
        codemirror_mode: None,
        codemirror_mime_type: None,
        wrap: false,
        extensions: owned(extensions),
        filenames: owned(filenames),
        interpreters: owned(interpreters),
        language_id,
        popular: false,
        group_name: None,
    }
}

/// The built-in catalogue, in registry order.
pub fn builtin_languages() -> (r: Vec<Language>)
    ensures
        records_of(r@) == builtin_records(),
        forall|i: int| 0 <= i < r@.len() ==> #[trigger] r@[i].aliases@.len() > 0,
{
    let mut v: Vec<Language> = Vec::new();

    let mut l = record("C", LanguageType::Programming, 41, &[".c", ".h"], &[], &["tcc"]);
    l.aliases = owned(&["c"]);
    l.color = Some(String::from_str("#555555"));
    l.ace_mode = Some(String::from_str("c_cpp"));
    l.tm_scope = Some(String::from_str("source.c"));
    l.popular = true;
    proof {
        let b = builtin_records()[0];
        assert(views(l.aliases@) =~= b.aliases);
        assert(views(l.extensions@) =~= b.extensions);
        assert(views(l.filenames@) =~= b.filenames);
        assert(views(l.interpreters@) =~= b.interpreters);
        assert(record_view(l) =~~= b);
    }
    v.push(l);

    let mut l = record(
        "C++",
        LanguageType::Programming,
        43,
        &[".cpp", ".cc", ".cxx", ".c++", ".hpp", ".hh", ".hxx", ".h"],
        &[],
        &[],
    );
    l.aliases = owned(&["cpp"]);
    l.color = Some(String::from_str("#f34b7d"));
    l.ace_mode = Some(String::from_str("c_cpp"));
    l.tm_scope = Some(String::from_str("source.c++"));
    l.popular = true;
    proof {
        let b = builtin_records()[1];
        assert(views(l.aliases@) =~= b.aliases);
        assert(views(l.extensions@) =~= b.extensions);
        assert(views(l.filenames@) =~= b.filenames);
        assert(views(l.interpreters@) =~= b.interpreters);
        assert(record_view(l) =~~= b);
    }
    v.push(l);

    let mut l = record("CSS", LanguageType::Markup, 50, &[".css"], &[], &[]);
    l.aliases = owned(&["css"]);
    l.color = Some(String::from_str("#563d7c"));
    l.ace_mode = Some(String::from_str("css"));
    l.popular = true;
    proof {
        let b = builtin_records()[2];
        assert(views(l.aliases@) =~= b.aliases);
        assert(views(l.extensions@) =~= b.extensions);
        assert(views(l.filenames@) =~= b.filenames);
        assert(views(l.interpreters@) =~= b.interpreters);
        assert(record_view(l) =~~= b);
    }
    v.push(l);

    let mut l = record(
        "Dockerfile",
        LanguageType::Programming,
        89,
        &[".dockerfile"],
        &["Dockerfile", "Containerfile"],
        &[],
    );
    l.aliases = owned(&["containerfile"]);
    l.color = Some(String::from_str("#384d54"));
    l.ace_mode = Some(String::from_str("dockerfile"));
    proof {
        let b = builtin_records()[3];
        assert(views(l.aliases@) =~= b.aliases);
        assert(views(l.extensions@) =~= b.extensions);
        assert(views(l.filenames@) =~= b.filenames);
        assert(views(l.interpreters@) =~= b.interpreters);
        assert(record_view(l) =~~= b);
    }
    v.push(l);

    let mut l = record("Go", LanguageType::Programming, 132, &[".go"], &[], &[]);
    l.aliases = owned(&["golang"]);
    l.color = Some(String::from_str("#00ADD8"));
    l.ace_mode = Some(String::from_str("golang"));
    l.popular = true;
    proof {
        let b = builtin_records()[4];
        assert(views(l.aliases@) =~= b.aliases);
        assert(views(l.extensions@) =~= b.extensions);
        assert(views(l.filenames@) =~= b.filenames);
        assert(views(l.interpreters@) =~= b.interpreters);
        assert(record_view(l) =~~= b);
    }
    v.push(l);

    let mut l = record("HTML", LanguageType::Markup, 146, &[".html", ".htm", ".xhtml"], &[], &[]);
    l.aliases = owned(&["xhtml"]);
    l.color = Some(String::from_str("#e34c26"));
    l.ace_mode = Some(String::from_str("html"));
    l.popular = true;
    proof {
        let b = builtin_records()[5];
        assert(views(l.aliases@) =~= b.aliases);
        assert(views(l.extensions@) =~= b.extensions);
        assert(views(l.filenames@) =~= b.filenames);
        assert(views(l.interpreters@) =~= b.interpreters);
        assert(record_view(l) =~~= b);
    }
    v.push(l);

    let mut l = record("HTML+ERB", LanguageType::Markup, 148, &[".erb", ".html.erb", ".erb.deface"], &[], &[]);
    l.aliases = owned(&["erb", "rhtml", "html+ruby"]);
    l.group_name = Some(String::from_str("HTML"));
    l.ace_mode = Some(String::from_str("html_ruby"));
    proof {
        let b = builtin_records()[6];
        assert(views(l.aliases@) =~= b.aliases);
        assert(views(l.extensions@) =~= b.extensions);
        assert(views(l.filenames@) =~= b.filenames);
        assert(views(l.interpreters@) =~= b.interpreters);
        assert(record_view(l) =~~= b);
    }
    v.push(l);

    let mut l = record("JSON", LanguageType::Data, 174, &[".json", ".jsonl", ".geojson"], &[".arcconfig", "composer.lock"], &[]);
    l.aliases = owned(&["geojson", "jsonl"]);
    l.ace_mode = Some(String::from_str("json"));
    l.popular = true;
    proof {
        let b = builtin_records()[7];
        assert(views(l.aliases@) =~= b.aliases);
        assert(views(l.extensions@) =~= b.extensions);
        assert(views(l.filenames@) =~= b.filenames);
        assert(views(l.interpreters@) =~= b.interpreters);
        assert(record_view(l) =~~= b);
    }
    v.push(l);

    let mut l = record("JSX", LanguageType::Programming, 178, &[".jsx"], &[], &[]);
    l.aliases = owned(&["jsx"]);
    l.group_name = Some(String::from_str("JavaScript"));
    l.ace_mode = Some(String::from_str("javascript"));
    proof {
        let b = builtin_records()[8];
        assert(views(l.aliases@) =~= b.aliases);
        assert(views(l.extensions@) =~= b.extensions);
        assert(views(l.filenames@) =~= b.filenames);
        assert(views(l.interpreters@) =~= b.interpreters);
        assert(record_view(l) =~~= b);
    }
    v.push(l);

    let mut l = record("Java", LanguageType::Programming, 181, &[".java", ".jav"], &[], &[]);
    l.aliases = owned(&["java"]);
    l.color = Some(String::from_str("#b07219"));
    l.ace_mode = Some(String::from_str("java"));
    l.popular = true;
    proof {
        let b = builtin_records()[9];
        assert(views(l.aliases@) =~= b.aliases);
        assert(views(l.extensions@) =~= b.extensions);
        assert(views(l.filenames@) =~= b.filenames);
        assert(views(l.interpreters@) =~= b.interpreters);
        assert(record_view(l) =~~= b);
    }
    v.push(l);

    let mut l = record(
        "JavaScript",
        LanguageType::Programming,
        183,
        &[".js", ".cjs", ".mjs", ".es6", ".jsm"],
        &["Jakefile"],
        &["node", "nodejs", "deno", "qjs"],
    );
    l.aliases = owned(&["js", "node"]);
    l.color = Some(String::from_str("#f1e05a"));
    l.ace_mode = Some(String::from_str("javascript"));
    l.tm_scope = Some(String::from_str("source.js"));
    l.popular = true;
    proof {
        let b = builtin_records()[10];
        assert(views(l.aliases@) =~= b.aliases);
        assert(views(l.extensions@) =~= b.extensions);
        assert(views(l.filenames@) =~= b.filenames);
        assert(views(l.interpreters@) =~= b.interpreters);
        assert(record_view(l) =~~= b);
    }
    v.push(l);

    let mut l = record(
        "Makefile",
        LanguageType::Programming,
        220,
        &[".mak", ".make", ".mk", ".mkfile"],
        &["Makefile", "makefile", "GNUmakefile", "BSDmakefile"],
        &["make"],
    );
    l.aliases = owned(&["bsdmake", "make", "mf"]);
    l.color = Some(String::from_str("#427819"));
    l.ace_mode = Some(String::from_str("makefile"));
    proof {
        let b = builtin_records()[11];
        assert(views(l.aliases@) =~= b.aliases);
        assert(views(l.extensions@) =~= b.extensions);
        assert(views(l.filenames@) =~= b.filenames);
        assert(views(l.interpreters@) =~= b.interpreters);
        assert(record_view(l) =~~= b);
    }
    v.push(l);

    let mut l = record(
        "Markdown",
        LanguageType::Prose,
        222,
        &[".md", ".markdown", ".mdown", ".mkd"],
        &["contents.lr"],
        &[],
    );
    l.aliases = owned(&["md", "pandoc"]);
    l.ace_mode = Some(String::from_str("markdown"));
    l.wrap = true;
    proof {
        let b = builtin_records()[12];
        assert(views(l.aliases@) =~= b.aliases);
        assert(views(l.extensions@) =~= b.extensions);
        assert(views(l.filenames@) =~= b.filenames);
        assert(views(l.interpreters@) =~= b.interpreters);
        assert(record_view(l) =~~= b);
    }
    v.push(l);

    let mut l = record("Objective-C", LanguageType::Programming, 257, &[".m", ".h"], &[], &[]);
    l.aliases = owned(&["obj-c", "objc", "objectivec"]);
    l.color = Some(String::from_str("#438eff"));
    l.ace_mode = Some(String::from_str("objectivec"));
    l.popular = true;
    proof {
        let b = builtin_records()[13];
        assert(views(l.aliases@) =~= b.aliases);
        assert(views(l.extensions@) =~= b.extensions);
        assert(views(l.filenames@) =~= b.filenames);
        assert(views(l.interpreters@) =~= b.interpreters);
        assert(record_view(l) =~~= b);
    }
    v.push(l);

    let mut l = record("PHP", LanguageType::Programming, 272, &[".php", ".phtml", ".php3", ".php4", ".php5"], &[".php", ".php_cs"], &["php"]);
    l.aliases = owned(&["inc"]);
    l.color = Some(String::from_str("#4F5D95"));
    l.ace_mode = Some(String::from_str("php"));
    l.popular = true;
    proof {
        let b = builtin_records()[14];
        assert(views(l.aliases@) =~= b.aliases);
        assert(views(l.extensions@) =~= b.extensions);
        assert(views(l.filenames@) =~= b.filenames);
        assert(views(l.interpreters@) =~= b.interpreters);
        assert(record_view(l) =~~= b);
    }
    v.push(l);

    let mut l = record("Perl", LanguageType::Programming, 282, &[".pl", ".pm", ".cgi", ".t"], &["Makefile.PL", "cpanfile"], &["cperl", "perl"]);
    l.aliases = owned(&["cperl"]);
    l.color = Some(String::from_str("#0298c3"));
    l.ace_mode = Some(String::from_str("perl"));
    l.popular = true;
    proof {
        let b = builtin_records()[15];
        assert(views(l.aliases@) =~= b.aliases);
        assert(views(l.extensions@) =~= b.extensions);
        assert(views(l.filenames@) =~= b.filenames);
        assert(views(l.interpreters@) =~= b.interpreters);
        assert(record_view(l) =~~= b);
    }
    v.push(l);

    let mut l = record(
        "Python",
        LanguageType::Programming,
        303,
        &[".py", ".pyi", ".pyw", ".gyp", ".wsgi"],
        &["SConstruct", "SConscript", "Snakefile", "wscript"],
        &["python", "python2", "python3", "py", "pypy", "pypy3"],
    );
    l.aliases = owned(&["python3", "rusthon"]);
    l.color = Some(String::from_str("#3572A5"));
    l.ace_mode = Some(String::from_str("python"));
    l.tm_scope = Some(String::from_str("source.python"));
    l.popular = true;
    proof {
        let b = builtin_records()[16];
        assert(views(l.aliases@) =~= b.aliases);
        assert(views(l.extensions@) =~= b.extensions);
        assert(views(l.filenames@) =~= b.filenames);
        assert(views(l.interpreters@) =~= b.interpreters);
        assert(record_view(l) =~~= b);
    }
    v.push(l);

    let mut l = record("Roff", LanguageType::Markup, 141, &[".roff", ".tmac", ".me", ".ms", ".mdoc", ".man", ".nr"], &["eqnrc", "troffrc"], &[]);
    l.aliases = owned(&["groff", "man", "manpage", "mdoc", "nroff", "troff"]);
    l.color = Some(String::from_str("#ecdebe"));
    l.ace_mode = Some(String::from_str("text"));
    l.wrap = true;
    proof {
        let b = builtin_records()[17];
        assert(views(l.aliases@) =~= b.aliases);
        assert(views(l.extensions@) =~= b.extensions);
        assert(views(l.filenames@) =~= b.filenames);
        assert(views(l.interpreters@) =~= b.interpreters);
        assert(record_view(l) =~~= b);
    }
    v.push(l);

    let mut l = record("Roff Manpage", LanguageType::Markup, 612, &[".1", ".2", ".3", ".4", ".5", ".6", ".7", ".8", ".9", ".1in", ".3pm"], &[], &[]);
    l.aliases = owned(&["roff-manpage"]);
    l.group_name = Some(String::from_str("Roff"));
    l.color = Some(String::from_str("#ecdebe"));
    l.ace_mode = Some(String::from_str("text"));
    l.wrap = true;
    proof {
        let b = builtin_records()[18];
        assert(views(l.aliases@) =~= b.aliases);
        assert(views(l.extensions@) =~= b.extensions);
        assert(views(l.filenames@) =~= b.filenames);
        assert(views(l.interpreters@) =~= b.interpreters);
        assert(record_view(l) =~~= b);
    }
    v.push(l);

    let mut l = record(
        "Ruby",
        LanguageType::Programming,
        326,
        &[".rb", ".builder", ".gemspec", ".rake", ".ru", ".thor"],
        &["Gemfile", "Rakefile", "Guardfile", ".irbrc", ".pryrc"],
        &["ruby", "macruby", "rake", "jruby", "rbx"],
    );
    l.aliases = owned(&["jruby", "macruby", "rake", "rb", "rbx"]);
    l.color = Some(String::from_str("#701516"));
    l.ace_mode = Some(String::from_str("ruby"));
    l.tm_scope = Some(String::from_str("source.ruby"));
    l.popular = true;
    proof {
        let b = builtin_records()[19];
        assert(views(l.aliases@) =~= b.aliases);
        assert(views(l.extensions@) =~= b.extensions);
        assert(views(l.filenames@) =~= b.filenames);
        assert(views(l.interpreters@) =~= b.interpreters);
        assert(record_view(l) =~~= b);
    }
    v.push(l);

    let mut l = record("Rust", LanguageType::Programming, 327, &[".rs", ".rs.in"], &[], &["rust-script"]);
    l.aliases = owned(&["rs"]);
    l.color = Some(String::from_str("#dea584"));
    l.ace_mode = Some(String::from_str("rust"));
    l.tm_scope = Some(String::from_str("source.rust"));
    proof {
        let b = builtin_records()[20];
        assert(views(l.aliases@) =~= b.aliases);
        assert(views(l.extensions@) =~= b.extensions);
        assert(views(l.filenames@) =~= b.filenames);
        assert(views(l.interpreters@) =~= b.interpreters);
        assert(record_view(l) =~~= b);
    }
    v.push(l);

    let mut l = record(
        "Shell",
        LanguageType::Programming,
        346,
        &[".sh", ".bash", ".bats", ".command", ".ksh", ".zsh"],
        &[".bashrc", ".bash_profile", ".profile", ".zshrc", "PKGBUILD"],
        &["ash", "bash", "dash", "ksh", "mksh", "pdksh", "sh", "zsh"],
    );
    l.aliases = owned(&["sh", "shell-script", "bash", "zsh", "envrc"]);
    l.color = Some(String::from_str("#89e051"));
    l.ace_mode = Some(String::from_str("sh"));
    l.popular = true;
    proof {
        let b = builtin_records()[21];
        assert(views(l.aliases@) =~= b.aliases);
        assert(views(l.extensions@) =~= b.extensions);
        assert(views(l.filenames@) =~= b.filenames);
        assert(views(l.interpreters@) =~= b.interpreters);
        assert(record_view(l) =~~= b);
    }
    v.push(l);

    let mut l = record("Text", LanguageType::Prose, 372, &[".txt", ".fr", ".nb", ".ncl", ".no"], &["COPYING", "LICENSE", "README.me", "INSTALL"], &[]);
    l.aliases = owned(&["fundamental", "plain text"]);
    l.ace_mode = Some(String::from_str("text"));
    l.wrap = true;
    proof {
        let b = builtin_records()[22];
        assert(views(l.aliases@) =~= b.aliases);
        assert(views(l.extensions@) =~= b.extensions);
        assert(views(l.filenames@) =~= b.filenames);
        assert(views(l.interpreters@) =~= b.interpreters);
        assert(record_view(l) =~~= b);
    }
    v.push(l);

    let mut l = record("TypeScript", LanguageType::Programming, 378, &[".ts", ".cts", ".mts"], &[], &["deno", "ts-node", "tsx"]);
    l.aliases = owned(&["ts"]);
    l.color = Some(String::from_str("#3178c6"));
    l.ace_mode = Some(String::from_str("typescript"));
    l.popular = true;
    proof {
        let b = builtin_records()[23];
        assert(views(l.aliases@) =~= b.aliases);
        assert(views(l.extensions@) =~= b.extensions);
        assert(views(l.filenames@) =~= b.filenames);
        assert(views(l.interpreters@) =~= b.interpreters);
        assert(record_view(l) =~~= b);
    }
    v.push(l);

    let mut l = record("XML", LanguageType::Data, 399, &[".xml", ".xsd", ".xsl", ".xslt", ".plist", ".svg", ".csproj"], &[".classpath", ".project", "Web.config", "packages.config"], &[]);
    l.aliases = owned(&["rss", "xsd", "wsdl"]);
    l.color = Some(String::from_str("#0060ac"));
    l.ace_mode = Some(String::from_str("xml"));
    l.popular = true;
    proof {
        let b = builtin_records()[24];
        assert(views(l.aliases@) =~= b.aliases);
        assert(views(l.extensions@) =~= b.extensions);
        assert(views(l.filenames@) =~= b.filenames);
        assert(views(l.interpreters@) =~= b.interpreters);
        assert(record_view(l) =~~= b);
    }
    v.push(l);

    let mut l = record("YAML", LanguageType::Data, 407, &[".yml", ".yaml", ".yaml-tmlanguage", ".sublime-syntax"], &[".clang-format", ".clang-tidy", ".gemrc", "glide.lock"], &[]);
    l.aliases = owned(&["yml"]);
    l.color = Some(String::from_str("#cb171e"));
    l.ace_mode = Some(String::from_str("yaml"));
    proof {
        let b = builtin_records()[25];
        assert(views(l.aliases@) =~= b.aliases);
        assert(views(l.extensions@) =~= b.extensions);
        assert(views(l.filenames@) =~= b.filenames);
        assert(views(l.interpreters@) =~= b.interpreters);
        assert(record_view(l) =~~= b);
    }
    v.push(l);

    assert(records_of(v@) =~= builtin_records());
    v
}

/// Languages with the same records agree on labels, ids and groups.
proof fn lemma_records_same_labels(a: Seq<Language>, b: Seq<Language>)
    requires
        records_of(a) == records_of(b),
    ensures
        same_labels(a, b),
{
    assert(a.len() == records_of(a).len() && b.len() == records_of(b).len());
    assert forall|i: int| 0 <= i < a.len() implies #[trigger] same_language_labels(a[i], b[i]) by {
        assert(records_of(a)[i] == record_view(a[i]));
        assert(records_of(b)[i] == record_view(b[i]));
        assert(views(a[i].aliases@).len() == a[i].aliases@.len());
        assert(views(b[i].aliases@).len() == b[i].aliases@.len());
        assert forall|j: int| 0 <= j < alias_count(a[i]) implies #[trigger] alias_at(a[i], j) == alias_at(b[i], j) by {
            if a[i].aliases@.len() > 0 {
                assert(views(a[i].aliases@)[j] == a[i].aliases@[j]@);
                assert(views(b[i].aliases@)[j] == b[i].aliases@[j]@);
            }
        }
    }
}

impl Registry {
    /// A registry over the built-in catalogue: served exactly when that catalogue
    /// is valid, and then holding its records as they are.
    pub fn builtin() -> (r: Result<Registry, CatalogueError>)
        ensures
            forall|ls: Seq<Language>|
                #[trigger] records_of(ls) == builtin_records() ==> (r is Ok <==> catalogue_valid(ls)),
            r matches Ok(reg) ==> reg.wf() && records_of(reg.langs()) == builtin_records(),
    {
        let v = builtin_languages();
        let ghost input = v@;
        let r = Registry::new(v);
        proof {
            assert forall|ls: Seq<Language>| #[trigger] records_of(ls) == builtin_records() implies (r is Ok
                <==> catalogue_valid(ls)) by {
                lemma_records_same_labels(ls, input);
                lemma_same_labels_agree(ls, input);
            }
            if let Ok(reg) = &r {
                let ls = reg.langs();
                assert forall|i: int| 0 <= i < ls.len() implies #[trigger] records_of(ls)[i] == builtin_records()[i] by {
                    assert(filled_language(input[i], ls[i]));
                    assert(input[i].aliases@.len() > 0);
                    assert(records_of(input)[i] == record_view(input[i]));
                }
                assert(records_of(ls) =~= builtin_records());
            }
        }
        r
    }
}

} // verus!
