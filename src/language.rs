//! The language registry: an arena of language records with lookups by name,
//! alias, file name, extension, interpreter and id.
use vstd::prelude::*;

use crate::order::{chars_lt, lemma_lex_total, lemma_lex_transitive, lex_lt};
use crate::text::{basename, chars_of, find_char, lower_of, position_of, to_lower, trim, trim_chars, string_of};

verus! {

/// The broad kind of a language.
#[derive(Debug, Clone, Copy, PartialEq, Eq, Hash, Structural)]
pub enum LanguageType {
    /// Data languages (JSON, YAML, ...).
    Data,
    /// Programming languages (Rust, Python, ...).
    Programming,
    /// Markup languages (HTML, Markdown, ...).
    Markup,
    /// Prose languages (plain text, AsciiDoc, ...).
    Prose,
    /// Anything else.
    Other,
}

/// The kind a catalogue names by a word: `data`, `programming`, `markup`, `prose`;
/// anything else is `Other`.
pub open spec fn type_named(s: Seq<char>) -> LanguageType {
    if s == "data"@ {
        LanguageType::Data
    } else if s == "programming"@ {
        LanguageType::Programming
    } else if s == "markup"@ {
        LanguageType::Markup
    } else if s == "prose"@ {
        LanguageType::Prose
    } else {
        LanguageType::Other
    }
}

impl LanguageType {
    /// The kind that a catalogue's word for it names.
    pub fn from_name(s: &str) -> (r: LanguageType)
        ensures
            r == type_named(s@),
    {
        let s = String::from_str(s);
        if s == String::from_str("data") {
            LanguageType::Data
        } else if s == String::from_str("programming") {
            LanguageType::Programming
        } else if s == String::from_str("markup") {
            LanguageType::Markup
        } else if s == String::from_str("prose") {
            LanguageType::Prose
        } else {
            LanguageType::Other
        }
    }
}

impl Default for LanguageType {
    fn default() -> (r: Self)
        ensures
            r == LanguageType::Other,
    {
        LanguageType::Other
    }
}

/// A programming or markup language.
#[derive(Debug, Clone)]
pub struct Language {
    /// Canonical human-readable name, unique in a registry.
    pub name: String,
    /// Name used in file system paths.
    pub fs_name: Option<String>,
    /// The kind of language.
    pub language_type: LanguageType,
    /// Colour associated with the language.
    pub color: Option<String>,
    /// Alternate names.
    pub aliases: Vec<String>,
    /// TextMate scope.
    pub tm_scope: Option<String>,
    /// Ace editor mode.
    pub ace_mode: Option<String>,
    /// CodeMirror mode.
    pub codemirror_mode: Option<String>,
    /// CodeMirror MIME type.
    pub codemirror_mime_type: Option<String>,
    /// Whether to wrap text when displaying.
    pub wrap: bool,
    /// File extensions, each with its leading dot.
    pub extensions: Vec<String>,
    /// Exact file names.
    pub filenames: Vec<String>,
    /// Interpreter names as they appear in a shebang line.
    pub interpreters: Vec<String>,
    /// Stable numeric id, unique in a registry.
    pub language_id: usize,
    /// Whether the language is popular.
    pub popular: bool,
    /// Name of the parent language that statistics roll up into.
    pub group_name: Option<String>,
}

/// A name or alias: not empty and free of commas.
pub open spec fn valid_label(s: Seq<char>) -> bool {
    s.len() > 0 && !s.contains(',')
}

/// Number of labels of a language: its name and its aliases.
pub open spec fn label_count(l: Language) -> int {
    alias_count(l) + 1
}

/// The alias a language gets when it names none: its case-folded name with
/// spaces turned into dashes.
pub open spec fn default_alias_of(name: Seq<char>) -> Seq<char> {
    lower_of(name).map_values(|c: char| if c == ' ' { '-' } else { c })
}

/// Number of aliases a language has in a registry: those it names, or its
/// default alias.
pub open spec fn alias_count(l: Language) -> int {
    if l.aliases@.len() == 0 {
        1
    } else {
        l.aliases@.len() as int
    }
}

/// Alias `j` of a language in a registry.
pub open spec fn alias_at(l: Language, j: int) -> Seq<char> {
    if l.aliases@.len() == 0 {
        default_alias_of(l.name@)
    } else {
        l.aliases@[j]@
    }
}

/// Case-folded label `a` of a language: 0 is the name, then the aliases.
pub open spec fn label_key(l: Language, a: int) -> Seq<char> {
    if a == 0 {
        lower_of(l.name@)
    } else {
        lower_of(alias_at(l, a - 1))
    }
}

/// Labels of a language are well formed.
pub open spec fn labels_valid(l: Language) -> bool {
    &&& valid_label(l.name@)
    &&& forall|j: int| 0 <= j < alias_count(l) ==> valid_label(#[trigger] alias_at(l, j))
}

/// `b` is `a` as a registry holds it: the same fields, and when `a` names no
/// alias, its default alias as the only one.
pub open spec fn filled_language(a: Language, b: Language) -> bool {
    &&& b.name == a.name
    &&& b.fs_name == a.fs_name
    &&& b.language_type == a.language_type
    &&& b.color == a.color
    &&& b.tm_scope == a.tm_scope
    &&& b.ace_mode == a.ace_mode
    &&& b.codemirror_mode == a.codemirror_mode
    &&& b.codemirror_mime_type == a.codemirror_mime_type
    &&& b.wrap == a.wrap
    &&& b.extensions == a.extensions
    &&& b.filenames == a.filenames
    &&& b.interpreters == a.interpreters
    &&& b.language_id == a.language_id
    &&& b.popular == a.popular
    &&& b.group_name == a.group_name
    &&& if a.aliases@.len() == 0 {
        b.aliases@.len() == 1 && b.aliases@[0]@ == default_alias_of(a.name@)
    } else {
        b.aliases == a.aliases
    }
}

/// `ls` is the catalogue `input` as a registry holds it.
pub open spec fn filled_catalogue(input: Seq<Language>, ls: Seq<Language>) -> bool {
    input.len() == ls.len() && forall|i: int| 0 <= i < input.len() ==> #[trigger] filled_language(input[i], ls[i])
}

/// `key` is a case-folded label of `l`.
pub open spec fn has_label(l: Language, key: Seq<char>) -> bool {
    exists|b: int| 0 <= b < label_count(l) && #[trigger] label_key(l, b) == key
}

/// `key` is a case-folded label of some language other than the one at `i`.
pub open spec fn labelled_elsewhere(ls: Seq<Language>, i: int, key: Seq<char>) -> bool {
    exists|k: int| 0 <= k < ls.len() && k != i && #[trigger] has_label(ls[k], key)
}

/// A label of the language at `i` is also a label of another language.
pub open spec fn label_clashes(ls: Seq<Language>, i: int) -> bool {
    exists|a: int|
        0 <= a < label_count(ls[i]) && #[trigger] labelled_elsewhere(ls, i, label_key(ls[i], a))
}

/// No other language has the id of the one at `i`.
pub open spec fn id_unique(ls: Seq<Language>, i: int) -> bool {
    forall|k: int| 0 <= k < ls.len() && k != i ==> #[trigger] ls[k].language_id != ls[i].language_id
}

/// The group name of the language at `i`, if any, names a language.
pub open spec fn group_resolves(ls: Seq<Language>, i: int) -> bool {
    ls[i].group_name matches Some(g) ==> exists|k: int|
        0 <= k < ls.len() && #[trigger] label_key(ls[k], 0) == lower_of(g@)
}

/// What a catalogue must satisfy before a registry serves it: well-formed labels,
/// no label shared between two languages, unique ids, and group names that resolve.
pub open spec fn catalogue_valid(ls: Seq<Language>) -> bool {
    forall|i: int|
        0 <= i < ls.len() ==> {
            &&& labels_valid(#[trigger] ls[i])
            &&& !label_clashes(ls, i)
            &&& id_unique(ls, i)
            &&& group_resolves(ls, i)
        }
}

/// Why a catalogue was refused.
#[derive(Debug, Clone, PartialEq, Eq)]
pub enum CatalogueError {
    /// A name or alias of this language is empty or holds a comma.
    BadLabel(String),
    /// A label of this language is also a label of another one.
    DuplicateLabel(String),
    /// Two languages share this id.
    DuplicateId(usize),
    /// This language names a group that is no language.
    UnknownGroup(String),
}

/// An immutable catalogue of languages; a language is known by its index.
pub struct Registry {
    languages: Vec<Language>,
    name_keys: Vec<String>,
    alias_keys: Vec<Vec<String>>,
    extension_keys: Vec<Vec<String>>,
}

impl Registry {
    /// The languages, in catalogue order.
    pub closed spec fn langs(&self) -> Seq<Language> {
        self.languages@
    }

    /// The case-folded keys agree with the languages.
    pub closed spec fn keys_ok(&self) -> bool {
        let n = self.languages@.len();
        &&& n <= usize::MAX
        &&& forall|i: int| 0 <= i < n ==> #[trigger] self.languages@[i].aliases@.len() > 0
        &&& self.name_keys@.len() == n
        &&& self.alias_keys@.len() == n
        &&& self.extension_keys@.len() == n
        &&& forall|i: int|
            0 <= i < n ==> #[trigger] self.name_keys@[i]@ == lower_of(self.languages@[i].name@)
        &&& forall|i: int|
            0 <= i < n ==> #[trigger] self.alias_keys@[i]@.len()
                == self.languages@[i].aliases@.len()
        &&& forall|i: int, j: int|
            0 <= i < n && 0 <= j < self.alias_keys@[i]@.len() ==> #[trigger] self.alias_keys@[i]@[j]@
                == lower_of(self.languages@[i].aliases@[j]@)
        &&& forall|i: int|
            0 <= i < n ==> #[trigger] self.extension_keys@[i]@.len()
                == self.languages@[i].extensions@.len()
        &&& forall|i: int, j: int|
            0 <= i < n && 0 <= j < self.extension_keys@[i]@.len()
                ==> #[trigger] self.extension_keys@[i]@[j]@ == lower_of(
                self.languages@[i].extensions@[j]@,
            )
    }

    /// A registry that serves lookups.
    pub open spec fn wf(&self) -> bool {
        self.keys_ok() && catalogue_valid(self.langs())
    }
}

/// Case-folds every string of a list.
fn lower_all(v: &Vec<String>) -> (r: Vec<String>)
    ensures
        r@.len() == v@.len(),
        forall|j: int| 0 <= j < v@.len() ==> #[trigger] r@[j]@ == lower_of(v@[j]@),
{
    let mut out: Vec<String> = Vec::new();
    let mut j: usize = 0;
    while j < v.len()
        invariant
            j <= v@.len(),
            out@.len() == j,
            forall|q: int| 0 <= q < j ==> #[trigger] out@[q]@ == lower_of(v@[q]@),
        decreases v@.len() - j,
    {
        out.push(to_lower(v[j].as_str()));
        j = j + 1;
    }
    out
}

/// Whether a name or alias is well formed.
fn label_ok(s: &String) -> (r: bool)
    ensures
        r == valid_label(s@),
{
    let c = chars_of(s.as_str());
    let p = position_of(c.as_slice(), ',');
    proof {
        crate::text::lemma_find_char_bounds(c@, ',', 0);
    }
    c.len() > 0 && p.is_none()
}

impl Registry {
    /// Index of the first language with an ill-formed label.
    fn bad_label(&self) -> (r: Option<usize>)
        requires
            self.keys_ok(),
        ensures
            r is None <==> forall|i: int|
                0 <= i < self.langs().len() ==> labels_valid(#[trigger] self.langs()[i]),
            r matches Some(i) ==> i < self.langs().len() && !labels_valid(self.langs()[i as int]),
    {
        let mut i: usize = 0;
        while i < self.languages.len()
            invariant
                self.keys_ok(),
                i <= self.languages@.len(),
                forall|q: int| 0 <= q < i ==> labels_valid(#[trigger] self.languages@[q]),
            decreases self.languages@.len() - i,
        {
            let l = &self.languages[i];
            assert(self.languages@[i as int].aliases@.len() > 0);
            if !label_ok(&l.name) {
                assert(!labels_valid(self.langs()[i as int]));
                return Some(i);
            }
            let mut j: usize = 0;
            while j < l.aliases.len()
                invariant
                    i < self.languages@.len(),
                    *l == self.languages@[i as int],
                    l.aliases@.len() > 0,
                    j <= l.aliases@.len(),
                    valid_label(l.name@),
                    forall|q: int| 0 <= q < j ==> valid_label(#[trigger] l.aliases@[q]@),
                decreases l.aliases@.len() - j,
            {
                if !label_ok(&l.aliases[j]) {
                    assert(alias_at(*l, j as int) == l.aliases@[j as int]@);
                    assert(!labels_valid(self.langs()[i as int]));
                    return Some(i);
                }
                j = j + 1;
            }
            assert(labels_valid(*l)) by {
                assert forall|q: int| 0 <= q < alias_count(*l) implies valid_label(#[trigger] alias_at(*l, q)) by {
                    assert(alias_at(*l, q) == l.aliases@[q]@);
                }
            }
            i = i + 1;
        }
        None
    }

    /// Whether `key` is a case-folded label of the language at `k`.
    fn labelled(&self, k: usize, key: &String) -> (r: bool)
        requires
            self.keys_ok(),
            k < self.langs().len(),
        ensures
            r == has_label(self.langs()[k as int], key@),
    {
        let ghost l = self.langs()[k as int];
        if self.name_keys[k] == *key {
            assert(label_key(l, 0) == key@);
            return true;
        }
        let keys = &self.alias_keys[k];
        let mut j: usize = 0;
        while j < keys.len()
            invariant
                self.keys_ok(),
                k < self.langs().len(),
                l == self.langs()[k as int],
                keys == self.alias_keys@[k as int],
                j <= keys@.len(),
                forall|b: int| 0 <= b < j + 1 ==> #[trigger] label_key(l, b) != key@,
            decreases keys@.len() - j,
        {
            if keys[j] == *key {
                assert(label_key(l, j + 1) == key@);
                return true;
            }
            assert(label_key(l, j + 1) != key@);
            j = j + 1;
        }
        false
    }

    /// Whether `key` is a label of a language other than the one at `i`.
    fn labelled_other(&self, i: usize, key: &String) -> (r: bool)
        requires
            self.keys_ok(),
        ensures
            r == labelled_elsewhere(self.langs(), i as int, key@),
    {
        let mut k: usize = 0;
        while k < self.languages.len()
            invariant
                self.keys_ok(),
                k <= self.langs().len(),
                forall|q: int|
                    0 <= q < k && q != i ==> !#[trigger] has_label(self.langs()[q], key@),
            decreases self.langs().len() - k,
        {
            if k != i && self.labelled(k, key) {
                return true;
            }
            k = k + 1;
        }
        false
    }

    /// Index of the first language with a label that another language shares.
    fn label_clash(&self) -> (r: Option<usize>)
        requires
            self.keys_ok(),
        ensures
            r is None <==> forall|i: int|
                0 <= i < self.langs().len() ==> !#[trigger] label_clashes(self.langs(), i),
            r matches Some(i) ==> i < self.langs().len() && label_clashes(self.langs(), i as int),
    {
        let mut i: usize = 0;
        while i < self.languages.len()
            invariant
                self.keys_ok(),
                i <= self.langs().len(),
                forall|q: int| 0 <= q < i ==> !#[trigger] label_clashes(self.langs(), q),
            decreases self.langs().len() - i,
        {
            let ghost l = self.langs()[i as int];
            if self.labelled_other(i, &self.name_keys[i]) {
                assert(labelled_elsewhere(self.langs(), i as int, label_key(l, 0)));
                assert(label_clashes(self.langs(), i as int));
                return Some(i);
            }
            let keys = &self.alias_keys[i];
            let mut j: usize = 0;
            while j < keys.len()
                invariant
                    self.keys_ok(),
                    i < self.langs().len(),
                    l == self.langs()[i as int],
                    keys == self.alias_keys@[i as int],
                    j <= keys@.len(),
                    forall|a: int|
                        0 <= a < j + 1 ==> !#[trigger] labelled_elsewhere(
                            self.langs(),
                            i as int,
                            label_key(l, a),
                        ),
                decreases keys@.len() - j,
            {
                if self.labelled_other(i, &keys[j]) {
                    assert(labelled_elsewhere(self.langs(), i as int, label_key(l, j + 1)));
                    assert(label_clashes(self.langs(), i as int));
                    return Some(i);
                }
                j = j + 1;
            }
            i = i + 1;
        }
        None
    }

    /// Index of the first language whose id another language shares.
    fn id_clash(&self) -> (r: Option<usize>)
        ensures
            r is None <==> forall|i: int|
                0 <= i < self.langs().len() ==> #[trigger] id_unique(self.langs(), i),
            r matches Some(i) ==> i < self.langs().len() && !id_unique(self.langs(), i as int),
    {
        let n = self.languages.len();
        let mut i: usize = 0;
        while i < n
            invariant
                n == self.langs().len(),
                i <= n,
                forall|q: int| 0 <= q < i ==> #[trigger] id_unique(self.langs(), q),
            decreases n - i,
        {
            let mut k: usize = 0;
            while k < n
                invariant
                    n == self.langs().len(),
                    i < n,
                    k <= n,
                    forall|q: int|
                        0 <= q < k && q != i ==> #[trigger] self.langs()[q].language_id
                            != self.langs()[i as int].language_id,
                decreases n - k,
            {
                if k != i && self.languages[k].language_id == self.languages[i].language_id {
                    assert(!id_unique(self.langs(), i as int));
                    return Some(i);
                }
                k = k + 1;
            }
            i = i + 1;
        }
        None
    }

    /// Position of the language whose case-folded name is `key`, scanning from the start.
    fn name_index(&self, key: &String) -> (r: Option<usize>)
        requires
            self.keys_ok(),
        ensures
            as_index(r) == first_match(self.langs(), named(key@), 0),
    {
        let mut i: usize = 0;
        while i < self.name_keys.len()
            invariant
                self.keys_ok(),
                i <= self.langs().len(),
                first_match(self.langs(), named(key@), i as int) == first_match(
                    self.langs(),
                    named(key@),
                    0,
                ),
            decreases self.langs().len() - i,
        {
            if self.name_keys[i] == *key {
                return Some(i);
            }
            i = i + 1;
        }
        None
    }

    /// Index of the first language whose group name resolves to no language.
    fn unknown_group(&self) -> (r: Option<usize>)
        requires
            self.keys_ok(),
        ensures
            r is None <==> forall|i: int|
                0 <= i < self.langs().len() ==> #[trigger] group_resolves(self.langs(), i),
            r matches Some(i) ==> i < self.langs().len() && !group_resolves(self.langs(), i as int),
    {
        let mut i: usize = 0;
        while i < self.languages.len()
            invariant
                self.keys_ok(),
                i <= self.langs().len(),
                forall|q: int| 0 <= q < i ==> #[trigger] group_resolves(self.langs(), q),
            decreases self.langs().len() - i,
        {
            match &self.languages[i].group_name {
                Some(g) => {
                    let key = to_lower(g.as_str());
                    match self.name_index(&key) {
                        Some(k) => {
                            proof {
                                lemma_first_match_found(self.langs(), named(key@), 0);
                                assert(label_key(self.langs()[k as int], 0) == key@);
                            }
                        },
                        None => {
                            proof {
                                lemma_first_match_none(self.langs(), named(key@), 0);
                                assert forall|k: int| 0 <= k < self.langs().len() implies #[trigger] label_key(self.langs()[k], 0) != key@ by {
                                    assert(!named(key@)(self.langs()[k]));
                                }
                            }
                            assert(!group_resolves(self.langs(), i as int));
                            return Some(i);
                        },
                    }
                },
                None => {},
            }
            i = i + 1;
        }
        None
    }

    /// Builds a registry from a catalogue: each language that names no alias gets
    /// its default alias. A catalogue that breaks `catalogue_valid` is refused with
    /// the first defect found.
    pub fn new(languages: Vec<Language>) -> (r: Result<Registry, CatalogueError>)
        ensures
            r is Ok <==> catalogue_valid(languages@),
            r matches Ok(reg) ==> reg.wf() && filled_catalogue(languages@, reg.langs()),
            r matches Err(CatalogueError::BadLabel(name)) ==> exists|i: int|
                0 <= i < languages@.len() && languages@[i].name == name && !labels_valid(
                    languages@[i],
                ),
            r matches Err(CatalogueError::DuplicateLabel(name)) ==> exists|i: int|
                0 <= i < languages@.len() && languages@[i].name == name && label_clashes(
                    languages@,
                    i,
                ),
            r matches Err(CatalogueError::DuplicateId(id)) ==> exists|i: int|
                0 <= i < languages@.len() && languages@[i].language_id == id && !id_unique(
                    languages@,
                    i,
                ),
            r matches Err(CatalogueError::UnknownGroup(name)) ==> exists|i: int|
                0 <= i < languages@.len() && languages@[i].name == name && !group_resolves(
                    languages@,
                    i,
                ),
    {
        let ghost input = languages@;
        let filled = fill_default_aliases(languages);
        proof {
            lemma_filled_agree(input, filled@);
        }
        let r = Registry::validated(filled);
        proof {
            lemma_errors_carry(input, filled@, r);
        }
        r
    }

    /// Builds a registry from a catalogue in which every language has an alias.
    fn validated(languages: Vec<Language>) -> (r: Result<Registry, CatalogueError>)
        requires
            forall|i: int| 0 <= i < languages@.len() ==> #[trigger] languages@[i].aliases@.len() > 0,
        ensures
            r is Ok <==> catalogue_valid(languages@),
            r matches Ok(reg) ==> reg.wf() && reg.langs() == languages@,
            r matches Err(CatalogueError::BadLabel(name)) ==> exists|i: int|
                0 <= i < languages@.len() && languages@[i].name == name && !labels_valid(
                    languages@[i],
                ),
            r matches Err(CatalogueError::DuplicateLabel(name)) ==> exists|i: int|
                0 <= i < languages@.len() && languages@[i].name == name && label_clashes(
                    languages@,
                    i,
                ),
            r matches Err(CatalogueError::DuplicateId(id)) ==> exists|i: int|
                0 <= i < languages@.len() && languages@[i].language_id == id && !id_unique(
                    languages@,
                    i,
                ),
            r matches Err(CatalogueError::UnknownGroup(name)) ==> exists|i: int|
                0 <= i < languages@.len() && languages@[i].name == name && !group_resolves(
                    languages@,
                    i,
                ),
    {
        let mut name_keys: Vec<String> = Vec::new();
        let mut alias_keys: Vec<Vec<String>> = Vec::new();
        let mut extension_keys: Vec<Vec<String>> = Vec::new();
        let mut i: usize = 0;
        while i < languages.len()
            invariant
                i <= languages@.len(),
                name_keys@.len() == i,
                alias_keys@.len() == i,
                extension_keys@.len() == i,
                forall|q: int| 0 <= q < i ==> #[trigger] name_keys@[q]@ == lower_of(languages@[q].name@),
                forall|q: int|
                    0 <= q < i ==> #[trigger] alias_keys@[q]@.len() == languages@[q].aliases@.len(),
                forall|q: int, j: int|
                    0 <= q < i && 0 <= j < alias_keys@[q]@.len() ==> #[trigger] alias_keys@[q]@[j]@
                        == lower_of(languages@[q].aliases@[j]@),
                forall|q: int|
                    0 <= q < i ==> #[trigger] extension_keys@[q]@.len()
                        == languages@[q].extensions@.len(),
                forall|q: int, j: int|
                    0 <= q < i && 0 <= j < extension_keys@[q]@.len()
                        ==> #[trigger] extension_keys@[q]@[j]@ == lower_of(
                        languages@[q].extensions@[j]@,
                    ),
            decreases languages@.len() - i,
        {
            name_keys.push(to_lower(languages[i].name.as_str()));
            alias_keys.push(lower_all(&languages[i].aliases));
            extension_keys.push(lower_all(&languages[i].extensions));
            i = i + 1;
        }
        assert(languages@.len() == languages.len());
        let reg = Registry { languages, name_keys, alias_keys, extension_keys };
        assert(reg.keys_ok());
        if let Some(i) = reg.bad_label() {
            return Err(CatalogueError::BadLabel(reg.languages[i].name.clone()));
        }
        if let Some(i) = reg.label_clash() {
            return Err(CatalogueError::DuplicateLabel(reg.languages[i].name.clone()));
        }
        if let Some(i) = reg.id_clash() {
            return Err(CatalogueError::DuplicateId(reg.languages[i].language_id));
        }
        if let Some(i) = reg.unknown_group() {
            return Err(CatalogueError::UnknownGroup(reg.languages[i].name.clone()));
        }
        Ok(reg)
    }
}

/// A defect found in the registry form of a catalogue is one of the catalogue.
proof fn lemma_errors_carry(input: Seq<Language>, ls: Seq<Language>, r: Result<Registry, CatalogueError>)
    requires
        filled_catalogue(input, ls),
        r matches Err(CatalogueError::BadLabel(name)) ==> exists|i: int|
            0 <= i < ls.len() && ls[i].name == name && !labels_valid(ls[i]),
        r matches Err(CatalogueError::DuplicateLabel(name)) ==> exists|i: int|
            0 <= i < ls.len() && ls[i].name == name && label_clashes(ls, i),
        r matches Err(CatalogueError::DuplicateId(id)) ==> exists|i: int|
            0 <= i < ls.len() && ls[i].language_id == id && !id_unique(ls, i),
        r matches Err(CatalogueError::UnknownGroup(name)) ==> exists|i: int|
            0 <= i < ls.len() && ls[i].name == name && !group_resolves(ls, i),
    ensures
        r matches Err(CatalogueError::BadLabel(name)) ==> exists|i: int|
            0 <= i < input.len() && input[i].name == name && !labels_valid(input[i]),
        r matches Err(CatalogueError::DuplicateLabel(name)) ==> exists|i: int|
            0 <= i < input.len() && input[i].name == name && label_clashes(input, i),
        r matches Err(CatalogueError::DuplicateId(id)) ==> exists|i: int|
            0 <= i < input.len() && input[i].language_id == id && !id_unique(input, i),
        r matches Err(CatalogueError::UnknownGroup(name)) ==> exists|i: int|
            0 <= i < input.len() && input[i].name == name && !group_resolves(input, i),
{
    lemma_filled_agree(input, ls);
    if let Err(CatalogueError::BadLabel(name)) = r {
        let i = choose|i: int| 0 <= i < ls.len() && ls[i].name == name && !labels_valid(ls[i]);
        assert(filled_language(input[i], ls[i]));
        assert(labels_valid(input[i]) == labels_valid(ls[i]));
    }
    if let Err(CatalogueError::DuplicateLabel(name)) = r {
        let i = choose|i: int| 0 <= i < ls.len() && ls[i].name == name && label_clashes(ls, i);
        assert(filled_language(input[i], ls[i]));
        assert(label_clashes(input, i) == label_clashes(ls, i));
    }
    if let Err(CatalogueError::DuplicateId(id)) = r {
        let i = choose|i: int| 0 <= i < ls.len() && ls[i].language_id == id && !id_unique(ls, i);
        assert(filled_language(input[i], ls[i]));
        assert(id_unique(input, i) == id_unique(ls, i));
    }
    if let Err(CatalogueError::UnknownGroup(name)) = r {
        let i = choose|i: int| 0 <= i < ls.len() && ls[i].name == name && !group_resolves(ls, i);
        assert(filled_language(input[i], ls[i]));
        assert(group_resolves(input, i) == group_resolves(ls, i));
    }
}

/// The catalogue with each language that names no alias given its default alias.
fn fill_default_aliases(languages: Vec<Language>) -> (r: Vec<Language>)
    ensures
        filled_catalogue(languages@, r@),
        forall|i: int| 0 <= i < r@.len() ==> #[trigger] r@[i].aliases@.len() > 0,
{
    let ghost orig = languages@;
    let mut rest = languages;
    let mut out: Vec<Language> = Vec::new();
    while rest.len() > 0
        invariant
            out@.len() + rest@.len() == orig.len(),
            rest@ == orig.skip(out@.len() as int),
            forall|i: int| 0 <= i < out@.len() ==> #[trigger] filled_language(orig[i], out@[i]),
            forall|i: int| 0 <= i < out@.len() ==> #[trigger] out@[i].aliases@.len() > 0,
        decreases rest@.len(),
    {
        let ghost k = out@.len() as int;
        let mut l = rest.remove(0);
        assert(l == orig[k]);
        if l.aliases.len() == 0 {
            let d = l.default_alias();
            l.aliases.push(d);
        }
        out.push(l);
        proof {
            assert(rest@ =~= orig.skip(out@.len() as int));
            assert(filled_language(orig[k], out@[k]));
        }
    }
    out
}

/// Two languages agree on their labels, id and group.
pub open spec fn same_language_labels(x: Language, y: Language) -> bool {
    &&& x.name@ == y.name@
    &&& alias_count(x) == alias_count(y)
    &&& forall|j: int| 0 <= j < alias_count(x) ==> #[trigger] alias_at(x, j) == alias_at(y, j)
    &&& x.language_id == y.language_id
    &&& (x.group_name is Some <==> y.group_name is Some)
    &&& (x.group_name is Some ==> x.group_name->0@ == y.group_name->0@)
}

/// Two catalogues agree, language by language, on labels, ids and groups.
pub open spec fn same_labels(a: Seq<Language>, b: Seq<Language>) -> bool {
    a.len() == b.len() && forall|i: int| 0 <= i < a.len() ==> #[trigger] same_language_labels(a[i], b[i])
}

/// A catalogue and its registry form agree on every label, id and group, and so
/// on validity.
pub proof fn lemma_filled_agree(input: Seq<Language>, ls: Seq<Language>)
    requires
        filled_catalogue(input, ls),
    ensures
        forall|i: int| 0 <= i < input.len() ==> #[trigger] labels_valid(input[i]) == labels_valid(ls[i]),
        forall|i: int| 0 <= i < input.len() ==> #[trigger] label_clashes(input, i) == label_clashes(ls, i),
        forall|i: int| 0 <= i < input.len() ==> #[trigger] id_unique(input, i) == id_unique(ls, i),
        forall|i: int| 0 <= i < input.len() ==> #[trigger] group_resolves(input, i) == group_resolves(ls, i),
        catalogue_valid(input) == catalogue_valid(ls),
{
    assert forall|i: int| 0 <= i < input.len() implies #[trigger] same_language_labels(input[i], ls[i]) by {
        assert(filled_language(input[i], ls[i]));
    }
    lemma_same_labels_agree(input, ls);
}

/// Two catalogues that agree on every label, id and group agree on validity.
pub proof fn lemma_same_labels_agree(input: Seq<Language>, ls: Seq<Language>)
    requires
        same_labels(input, ls),
    ensures
        forall|i: int| 0 <= i < input.len() ==> #[trigger] labels_valid(input[i]) == labels_valid(ls[i]),
        forall|i: int| 0 <= i < input.len() ==> #[trigger] label_clashes(input, i) == label_clashes(ls, i),
        forall|i: int| 0 <= i < input.len() ==> #[trigger] id_unique(input, i) == id_unique(ls, i),
        forall|i: int| 0 <= i < input.len() ==> #[trigger] group_resolves(input, i) == group_resolves(ls, i),
        catalogue_valid(input) == catalogue_valid(ls),
{
    assert forall|i: int, a: int| 0 <= i < input.len() && 0 <= a < label_count(input[i]) implies label_count(
        ls[i],
    ) == label_count(input[i]) && #[trigger] label_key(input[i], a) == label_key(ls[i], a) by {
        assert(same_language_labels(input[i], ls[i]));
    }
    assert forall|i: int| 0 <= i < input.len() implies label_count(#[trigger] ls[i]) == label_count(input[i]) by {
        assert(same_language_labels(input[i], ls[i]));
    }
    assert forall|k: int, key: Seq<char>| 0 <= k < input.len() implies #[trigger] has_label(input[k], key) == has_label(ls[k], key) by {
        if has_label(input[k], key) {
            let b = choose|b: int| 0 <= b < label_count(input[k]) && #[trigger] label_key(input[k], b) == key;
            assert(label_key(ls[k], b) == key);
        }
        if has_label(ls[k], key) {
            let b = choose|b: int| 0 <= b < label_count(ls[k]) && #[trigger] label_key(ls[k], b) == key;
            assert(label_key(input[k], b) == label_key(ls[k], b));
        }
    }
    assert forall|i: int, key: Seq<char>| 0 <= i < input.len() implies #[trigger] labelled_elsewhere(input, i, key) == labelled_elsewhere(ls, i, key) by {
        if labelled_elsewhere(input, i, key) {
            let k = choose|k: int| 0 <= k < input.len() && k != i && #[trigger] has_label(input[k], key);
            assert(has_label(ls[k], key));
        }
        if labelled_elsewhere(ls, i, key) {
            let k = choose|k: int| 0 <= k < ls.len() && k != i && #[trigger] has_label(ls[k], key);
            assert(has_label(input[k], key));
        }
    }
    assert forall|k: int| 0 <= k < input.len() implies #[trigger] ls[k].language_id == input[k].language_id
        && ls[k].name@ == input[k].name@ by {
        assert(same_language_labels(input[k], ls[k]));
    }
    assert forall|i: int| 0 <= i < input.len() implies #[trigger] labels_valid(input[i]) == labels_valid(ls[i]) by {
        assert(same_language_labels(input[i], ls[i]));
        if labels_valid(input[i]) {
            assert forall|j: int| 0 <= j < alias_count(ls[i]) implies valid_label(#[trigger] alias_at(ls[i], j)) by {
                assert(alias_at(input[i], j) == alias_at(ls[i], j));
                assert(valid_label(alias_at(input[i], j)));
            }
        }
        if labels_valid(ls[i]) {
            assert forall|j: int| 0 <= j < alias_count(input[i]) implies valid_label(#[trigger] alias_at(input[i], j)) by {
                assert(alias_at(input[i], j) == alias_at(ls[i], j));
                assert(valid_label(alias_at(ls[i], j)));
            }
        }
    }
    assert forall|i: int| 0 <= i < input.len() implies #[trigger] label_clashes(input, i) == label_clashes(ls, i) by {
        if label_clashes(input, i) {
            let a = choose|a: int| 0 <= a < label_count(input[i]) && #[trigger] labelled_elsewhere(input, i, label_key(input[i], a));
            assert(label_key(input[i], a) == label_key(ls[i], a));
            assert(labelled_elsewhere(ls, i, label_key(ls[i], a)));
        }
        if label_clashes(ls, i) {
            let a = choose|a: int| 0 <= a < label_count(ls[i]) && #[trigger] labelled_elsewhere(ls, i, label_key(ls[i], a));
            assert(label_key(input[i], a) == label_key(ls[i], a));
            assert(labelled_elsewhere(input, i, label_key(input[i], a)));
        }
    }
    assert forall|i: int| 0 <= i < input.len() implies #[trigger] id_unique(input, i) == id_unique(ls, i) by {
        if id_unique(input, i) {
            assert forall|k: int| 0 <= k < ls.len() && k != i implies #[trigger] ls[k].language_id != ls[i].language_id by {
                assert(input[k].language_id != input[i].language_id);
            }
        }
        if id_unique(ls, i) {
            assert forall|k: int| 0 <= k < input.len() && k != i implies #[trigger] input[k].language_id != input[i].language_id by {
                assert(ls[k].language_id != ls[i].language_id);
            }
        }
    }
    assert forall|i: int| 0 <= i < input.len() implies #[trigger] group_resolves(input, i) == group_resolves(ls, i) by {
        assert(same_language_labels(input[i], ls[i]));
        if group_resolves(input, i) {
            if let Some(g) = input[i].group_name {
                let k = choose|k: int| 0 <= k < input.len() && #[trigger] label_key(input[k], 0) == lower_of(g@);
                assert(same_language_labels(input[k], ls[k]));
                assert(label_key(ls[k], 0) == label_key(input[k], 0));
            }
        }
        if group_resolves(ls, i) {
            if let Some(g) = ls[i].group_name {
                let k = choose|k: int| 0 <= k < ls.len() && #[trigger] label_key(ls[k], 0) == lower_of(g@);
                assert(same_language_labels(input[k], ls[k]));
                assert(label_key(input[k], 0) == label_key(ls[k], 0));
            }
        }
    }
}

/// `b` is `a` with its popularity set to `popular`.
pub open spec fn with_popularity(a: Language, b: Language, popular: bool) -> bool {
    &&& b.name == a.name
    &&& b.fs_name == a.fs_name
    &&& b.language_type == a.language_type
    &&& b.color == a.color
    &&& b.aliases == a.aliases
    &&& b.tm_scope == a.tm_scope
    &&& b.ace_mode == a.ace_mode
    &&& b.codemirror_mode == a.codemirror_mode
    &&& b.codemirror_mime_type == a.codemirror_mime_type
    &&& b.wrap == a.wrap
    &&& b.extensions == a.extensions
    &&& b.filenames == a.filenames
    &&& b.interpreters == a.interpreters
    &&& b.language_id == a.language_id
    &&& b.group_name == a.group_name
    &&& b.popular == popular
}

/// Marks as popular exactly the languages whose name the list of popular names holds.
pub fn mark_popular(languages: Vec<Language>, popular: &Vec<String>) -> (r: Vec<Language>)
    ensures
        r@.len() == languages@.len(),
        forall|i: int|
            0 <= i < r@.len() ==> #[trigger] with_popularity(
                languages@[i],
                r@[i],
                has_string(popular@, languages@[i].name@),
            ),
{
    let ghost orig = languages@;
    let mut rest = languages;
    let mut out: Vec<Language> = Vec::new();
    while rest.len() > 0
        invariant
            out@.len() + rest@.len() == orig.len(),
            rest@ == orig.skip(out@.len() as int),
            forall|i: int|
                0 <= i < out@.len() ==> #[trigger] with_popularity(orig[i], out@[i], has_string(popular@, orig[i].name@)),
        decreases rest@.len(),
    {
        let ghost k = out@.len() as int;
        let mut l = rest.remove(0);
        assert(l == orig[k]);
        l.popular = holds_string(popular, l.name.as_str());
        out.push(l);
        proof {
            assert(rest@ =~= orig.skip(out@.len() as int));
            assert(with_popularity(orig[k], out@[k], has_string(popular@, orig[k].name@)));
        }
    }
    out
}

/// Index of the first language at or after `i` that satisfies `p`.
pub open spec fn first_match(ls: Seq<Language>, p: spec_fn(Language) -> bool, i: int) -> Option<int>
    decreases ls.len() - i,
{
    if i < 0 || i >= ls.len() {
        None
    } else if p(ls[i]) {
        Some(i)
    } else {
        first_match(ls, p, i + 1)
    }
}

pub proof fn lemma_first_match_found(ls: Seq<Language>, p: spec_fn(Language) -> bool, i: int)
    requires
        0 <= i,
        first_match(ls, p, i) is Some,
    ensures
        i <= first_match(ls, p, i)->0 < ls.len(),
        p(ls[first_match(ls, p, i)->0]),
        forall|q: int| i <= q < first_match(ls, p, i)->0 ==> !p(#[trigger] ls[q]),
    decreases ls.len() - i,
{
    if !p(ls[i]) {
        lemma_first_match_found(ls, p, i + 1);
    }
}

pub proof fn lemma_first_match_none(ls: Seq<Language>, p: spec_fn(Language) -> bool, i: int)
    requires
        0 <= i,
        first_match(ls, p, i) is None,
    ensures
        forall|q: int| i <= q < ls.len() ==> !p(#[trigger] ls[q]),
    decreases ls.len() - i,
{
    if i < ls.len() {
        lemma_first_match_none(ls, p, i + 1);
    }
}

/// An index as a mathematical integer.
pub open spec fn as_index(r: Option<usize>) -> Option<int> {
    match r {
        Some(i) => Some(i as int),
        None => None,
    }
}

/// The language's case-folded name is `key`.
pub open spec fn named(key: Seq<char>) -> spec_fn(Language) -> bool {
    |l: Language| lower_of(l.name@) == key
}

/// The language has an alias whose case-folded form is `key`.
pub open spec fn aliased(key: Seq<char>) -> spec_fn(Language) -> bool {
    |l: Language| exists|j: int| 0 <= j < l.aliases@.len() && #[trigger] lower_of(l.aliases@[j]@) == key
}

/// The language has an extension whose case-folded form is `key`.
pub open spec fn with_extension(key: Seq<char>) -> spec_fn(Language) -> bool {
    |l: Language|
        exists|j: int| 0 <= j < l.extensions@.len() && #[trigger] lower_of(l.extensions@[j]@) == key
}

/// One of the strings of `v` is `s`.
pub open spec fn has_string(v: Seq<String>, s: Seq<char>) -> bool {
    exists|j: int| 0 <= j < v.len() && #[trigger] v[j]@ == s
}

/// The language lists the file name `f`.
pub open spec fn with_filename(f: Seq<char>) -> spec_fn(Language) -> bool {
    |l: Language| has_string(l.filenames@, f)
}

/// The language lists the interpreter `s`.
pub open spec fn with_interpreter(s: Seq<char>) -> spec_fn(Language) -> bool {
    |l: Language| has_string(l.interpreters@, s)
}

/// Indices of the languages among the first `n` that satisfy `p`, in catalogue order.
pub open spec fn all_matches(ls: Seq<Language>, p: spec_fn(Language) -> bool, n: int) -> Seq<usize>
    decreases n,
{
    if n <= 0 {
        seq![]
    } else {
        let r = all_matches(ls, p, n - 1);
        if p(ls[n - 1]) {
            r.push((n - 1) as usize)
        } else {
            r
        }
    }
}

/// Lookup pred a case-folded label, retried with the part before the first comma.
pub open spec fn label_lookup(
    ls: Seq<Language>,
    pred: spec_fn(Seq<char>) -> spec_fn(Language) -> bool,
    s: Seq<char>,
) -> Option<int> {
    match first_match(ls, pred(lower_of(s)), 0) {
        Some(i) => Some(i),
        None => match find_char(s, ',', 0) {
            Some(p) => first_match(ls, pred(lower_of(trim(s.take(p)))), 0),
            None => None,
        },
    }
}

/// The language whose name matches `s`, ignoring case.
pub open spec fn name_lookup(ls: Seq<Language>, s: Seq<char>) -> Option<int> {
    label_lookup(ls, |k: Seq<char>| named(k), s)
}

/// The language with an alias that matches `s`, ignoring case.
pub open spec fn alias_lookup(ls: Seq<Language>, s: Seq<char>) -> Option<int> {
    label_lookup(ls, |k: Seq<char>| aliased(k), s)
}

/// Lookup by name, then by alias; the empty string names nothing.
pub open spec fn lookup_spec(ls: Seq<Language>, s: Seq<char>) -> Option<int> {
    if s.len() == 0 {
        None
    } else {
        match name_lookup(ls, s) {
            Some(i) => Some(i),
            None => alias_lookup(ls, s),
        }
    }
}

/// Languages for the first of the trailing extensions of `name`, from position `i`
/// on, that any language lists; longer extensions come first.
pub open spec fn extension_match_from(ls: Seq<Language>, name: Seq<char>, i: int) -> Seq<usize>
    decreases name.len() - i,
{
    if i < 0 || i >= name.len() {
        seq![]
    } else if name[i] == '.' {
        let m = all_matches(ls, with_extension(name.subrange(i, name.len() as int)), ls.len() as int);
        if m.len() > 0 {
            m
        } else {
            extension_match_from(ls, name, i + 1)
        }
    } else {
        extension_match_from(ls, name, i + 1)
    }
}

/// Languages for the longest trailing extension of the path's file name that any
/// language lists.
pub open spec fn extension_lookup(ls: Seq<Language>, path: Seq<char>) -> Seq<usize> {
    extension_match_from(ls, lower_of(basename(path)), 0)
}

/// The language that statistics for the language at `i` roll up into.
pub open spec fn group_of(ls: Seq<Language>, i: int) -> Option<int> {
    match ls[i].group_name {
        Some(g) => name_lookup(ls, g@),
        None => Some(i),
    }
}

impl Registry {
    /// The language at index `i`.
    pub fn language(&self, i: usize) -> (r: &Language)
        requires
            i < self.langs().len(),
        ensures
            *r == self.langs()[i as int],
    {
        &self.languages[i]
    }

    /// Number of languages.
    pub fn len(&self) -> (r: usize)
        ensures
            r == self.langs().len(),
    {
        self.languages.len()
    }

    /// Position of the first language with an alias whose case-folded form is `key`.
    fn alias_index(&self, key: &String) -> (r: Option<usize>)
        requires
            self.keys_ok(),
        ensures
            as_index(r) == first_match(self.langs(), aliased(key@), 0),
    {
        let mut i: usize = 0;
        while i < self.alias_keys.len()
            invariant
                self.keys_ok(),
                i <= self.langs().len(),
                first_match(self.langs(), aliased(key@), i as int) == first_match(
                    self.langs(),
                    aliased(key@),
                    0,
                ),
            decreases self.langs().len() - i,
        {
            let keys = &self.alias_keys[i];
            let ghost l = self.langs()[i as int];
            let mut j: usize = 0;
            while j < keys.len()
                invariant
                    self.keys_ok(),
                    i < self.langs().len(),
                    l == self.langs()[i as int],
                    keys == self.alias_keys@[i as int],
                    j <= keys@.len(),
                    first_match(self.langs(), aliased(key@), i as int) == first_match(
                        self.langs(),
                        aliased(key@),
                        0,
                    ),
                    forall|q: int| 0 <= q < j ==> #[trigger] lower_of(l.aliases@[q]@) != key@,
                decreases keys@.len() - j,
            {
                if keys[j] == *key {
                    assert(self.alias_keys@[i as int]@[j as int]@ == lower_of(l.aliases@[j as int]@));
                    assert(lower_of(l.aliases@[j as int]@) == key@);
                    assert(aliased(key@)(l));
                    assert(first_match(self.langs(), aliased(key@), i as int) == Some(i as int));
                    return Some(i);
                }
                j = j + 1;
            }
            assert(!aliased(key@)(l));
            i = i + 1;
        }
        None
    }

    /// Indices of the languages that list an extension whose case-folded form is `key`.
    fn extension_indices(&self, key: &String) -> (r: Vec<usize>)
        requires
            self.keys_ok(),
        ensures
            r@ == all_matches(self.langs(), with_extension(key@), self.langs().len() as int),
    {
        let mut out: Vec<usize> = Vec::new();
        let mut i: usize = 0;
        while i < self.extension_keys.len()
            invariant
                self.keys_ok(),
                i <= self.langs().len(),
                out@ == all_matches(self.langs(), with_extension(key@), i as int),
            decreases self.langs().len() - i,
        {
            let keys = &self.extension_keys[i];
            let ghost l = self.langs()[i as int];
            let mut j: usize = 0;
            let mut found = false;
            while j < keys.len() && !found
                invariant
                    self.keys_ok(),
                    i < self.langs().len(),
                    l == self.langs()[i as int],
                    keys == self.extension_keys@[i as int],
                    j <= keys@.len(),
                    found ==> with_extension(key@)(l),
                    !found ==> forall|q: int| 0 <= q < j ==> #[trigger] lower_of(l.extensions@[q]@) != key@,
                decreases keys@.len() - j,
            {
                if keys[j] == *key {
                    found = true;
                }
                j = j + 1;
            }
            if found {
                out.push(i);
            }
            i = i + 1;
        }
        out
    }
}

/// Whether `v` holds the string `s`.
fn holds_string(v: &Vec<String>, s: &str) -> (r: bool)
    ensures
        r == has_string(v@, s@),
{
    let target = String::from_str(s);
    let mut j: usize = 0;
    while j < v.len()
        invariant
            target@ == s@,
            j <= v@.len(),
            forall|q: int| 0 <= q < j ==> #[trigger] v@[q]@ != s@,
        decreases v@.len() - j,
    {
        if v[j] == target {
            return true;
        }
        j = j + 1;
    }
    false
}

impl Language {
    /// Looks a language up by name, ignoring case; when nothing matches and the name
    /// holds a comma, the part before the first comma is tried, trimmed.
    pub fn find_by_name(registry: &Registry, name: &str) -> (r: Option<usize>)
        requires
            registry.wf(),
        ensures
            as_index(r) == name_lookup(registry.langs(), name@),
    {
        let key = to_lower(name);
        match registry.name_index(&key) {
            Some(i) => Some(i),
            None => {
                let cs = chars_of(name);
                match position_of(cs.as_slice(), ',') {
                    Some(p) => {
                        proof {
                            crate::text::lemma_find_char_bounds(cs@, ',', 0);
                        }
                        let head = trim_chars(&cs.as_slice()[0..p]);
                        proof {
                            assert(cs@.subrange(0, p as int) =~= name@.take(p as int));
                        }
                        let key2 = to_lower(string_of(head.as_slice()).as_str());
                        registry.name_index(&key2)
                    },
                    None => None,
                }
            },
        }
    }

    /// Looks a language up by alias, ignoring case, with the same comma rule as by name.
    pub fn find_by_alias(registry: &Registry, alias: &str) -> (r: Option<usize>)
        requires
            registry.wf(),
        ensures
            as_index(r) == alias_lookup(registry.langs(), alias@),
    {
        let key = to_lower(alias);
        match registry.alias_index(&key) {
            Some(i) => Some(i),
            None => {
                let cs = chars_of(alias);
                match position_of(cs.as_slice(), ',') {
                    Some(p) => {
                        proof {
                            crate::text::lemma_find_char_bounds(cs@, ',', 0);
                        }
                        let head = trim_chars(&cs.as_slice()[0..p]);
                        proof {
                            assert(cs@.subrange(0, p as int) =~= alias@.take(p as int));
                        }
                        let key2 = to_lower(string_of(head.as_slice()).as_str());
                        registry.alias_index(&key2)
                    },
                    None => None,
                }
            },
        }
    }

    /// Looks a language up by name, then by alias.
    pub fn lookup(registry: &Registry, name: &str) -> (r: Option<usize>)
        requires
            registry.wf(),
        ensures
            as_index(r) == lookup_spec(registry.langs(), name@),
    {
        if name.is_empty() {
            return None;
        }
        match Language::find_by_name(registry, name) {
            Some(i) => Some(i),
            None => Language::find_by_alias(registry, name),
        }
    }

    /// Languages that list the last component of `filename` among their file names,
    /// compared exactly.
    pub fn find_by_filename(registry: &Registry, filename: &str) -> (r: Vec<usize>)
        requires
            registry.wf(),
        ensures
            r@ == all_matches(
                registry.langs(),
                with_filename(basename(filename@)),
                registry.langs().len() as int,
            ),
    {
        let cs = chars_of(filename);
        let base = string_of(crate::text::basename_of(cs.as_slice()).as_slice());
        let mut out: Vec<usize> = Vec::new();
        let mut i: usize = 0;
        while i < registry.languages.len()
            invariant
                base@ == basename(filename@),
                i <= registry.langs().len(),
                out@ == all_matches(registry.langs(), with_filename(base@), i as int),
            decreases registry.langs().len() - i,
        {
            if holds_string(&registry.languages[i].filenames, base.as_str()) {
                out.push(i);
            }
            i = i + 1;
        }
        out
    }

    /// Languages for the longest trailing extension of the file name of `filename`
    /// (`.html.erb` before `.erb`) that any language lists, ignoring case.
    pub fn find_by_extension(registry: &Registry, filename: &str) -> (r: Vec<usize>)
        requires
            registry.wf(),
        ensures
            r@ == extension_lookup(registry.langs(), filename@),
    {
        let cs = chars_of(filename);
        let base = string_of(crate::text::basename_of(cs.as_slice()).as_slice());
        let lowered = to_lower(base.as_str());
        let name = chars_of(lowered.as_str());
        let n = name.len();
        let mut i: usize = 0;
        while i < n
            invariant
                n == name@.len(),
                name@ == lower_of(basename(filename@)),
                registry.wf(),
                i <= n,
                extension_match_from(registry.langs(), name@, i as int) == extension_match_from(
                    registry.langs(),
                    name@,
                    0,
                ),
            decreases n - i,
        {
            if name[i] == '.' {
                let ext = string_of(&name.as_slice()[i..n]);
                let m = registry.extension_indices(&ext);
                if m.len() > 0 {
                    return m;
                }
            }
            i = i + 1;
        }
        Vec::new()
    }

    /// Languages that list `interpreter`, compared exactly.
    pub fn find_by_interpreter(registry: &Registry, interpreter: &str) -> (r: Vec<usize>)
        requires
            registry.wf(),
        ensures
            r@ == all_matches(
                registry.langs(),
                with_interpreter(interpreter@),
                registry.langs().len() as int,
            ),
    {
        let mut out: Vec<usize> = Vec::new();
        let mut i: usize = 0;
        while i < registry.languages.len()
            invariant
                i <= registry.langs().len(),
                out@ == all_matches(registry.langs(), with_interpreter(interpreter@), i as int),
            decreases registry.langs().len() - i,
        {
            if holds_string(&registry.languages[i].interpreters, interpreter) {
                out.push(i);
            }
            i = i + 1;
        }
        out
    }

    /// The language with id `id`.
    pub fn find_by_id(registry: &Registry, id: usize) -> (r: Option<usize>)
        requires
            registry.wf(),
        ensures
            r matches Some(i) ==> i < registry.langs().len() && registry.langs()[i as int].language_id
                == id,
            r is None ==> forall|i: int|
                0 <= i < registry.langs().len() ==> #[trigger] registry.langs()[i].language_id != id,
    {
        let mut i: usize = 0;
        while i < registry.languages.len()
            invariant
                i <= registry.langs().len(),
                forall|q: int| 0 <= q < i ==> #[trigger] registry.langs()[q].language_id != id,
            decreases registry.langs().len() - i,
        {
            if registry.languages[i].language_id == id {
                return Some(i);
            }
            i = i + 1;
        }
        None
    }
}

/// Which languages a listing selects.
#[derive(Debug, Clone, Copy, PartialEq, Eq, Structural)]
pub enum Selection {
    /// Popular languages.
    Popular,
    /// Languages that are not popular.
    Unpopular,
    /// Languages with a colour.
    Colored,
}

/// Whether a listing selects `l`.
pub open spec fn selects(which: Selection, l: Language) -> bool {
    match which {
        Selection::Popular => l.popular,
        Selection::Unpopular => !l.popular,
        Selection::Colored => l.color is Some,
    }
}

/// Case-folded name of a language, the key that listings sort by.
pub open spec fn sort_key(l: Language) -> Seq<char> {
    lower_of(l.name@)
}

/// `r` holds exactly the selected languages, strictly ordered by case-folded name.
pub open spec fn is_listing(ls: Seq<Language>, which: Selection, r: Seq<usize>) -> bool {
    &&& forall|a: int| 0 <= a < r.len() ==> #[trigger] r[a] < ls.len()
    &&& forall|i: usize| r.contains(i) <==> (i < ls.len() && selects(which, ls[i as int]))
    &&& forall|a: int, b: int|
        0 <= a < b < r.len() ==> lex_lt(
            #[trigger] sort_key(ls[r[a] as int]),
            #[trigger] sort_key(ls[r[b] as int]),
        )
}

/// In a valid catalogue no two languages share a case-folded name.
pub proof fn lemma_names_distinct(ls: Seq<Language>, x: int, y: int)
    requires
        catalogue_valid(ls),
        0 <= x < ls.len(),
        0 <= y < ls.len(),
        x != y,
    ensures
        lower_of(ls[x].name@) != lower_of(ls[y].name@),
{
    if lower_of(ls[x].name@) == lower_of(ls[y].name@) {
        assert(label_key(ls[y], 0) == label_key(ls[x], 0));
        assert(has_label(ls[y], label_key(ls[x], 0)));
        assert(labelled_elsewhere(ls, x, label_key(ls[x], 0)));
        assert(label_clashes(ls, x));
    }
}

impl Registry {
    /// Whether the language at `i` is selected.
    fn selected(&self, which: Selection, i: usize) -> (r: bool)
        requires
            i < self.langs().len(),
        ensures
            r == selects(which, self.langs()[i as int]),
    {
        let l = &self.languages[i];
        match which {
            Selection::Popular => l.popular,
            Selection::Unpopular => !l.popular,
            Selection::Colored => l.color.is_some(),
        }
    }

    /// The selected languages, ordered by case-folded name.
    pub fn listing(&self, which: Selection) -> (r: Vec<usize>)
        requires
            self.wf(),
        ensures
            is_listing(self.langs(), which, r@),
    {
        let ghost ls = self.langs();
        let n = self.languages.len();
        let mut out: Vec<usize> = Vec::new();
        let mut i: usize = 0;
        while i < n
            invariant
                self.wf(),
                ls == self.langs(),
                n == ls.len(),
                i <= n,
                forall|a: int| 0 <= a < out@.len() ==> #[trigger] out@[a] < i,
                forall|x: usize| out@.contains(x) <==> (x < i && selects(which, ls[x as int])),
                forall|a: int, b: int|
                    0 <= a < b < out@.len() ==> lex_lt(
                        #[trigger] sort_key(ls[out@[a] as int]),
                        #[trigger] sort_key(ls[out@[b] as int]),
                    ),
            decreases n - i,
        {
            if self.selected(which, i) {
                let key = chars_of(self.name_keys[i].as_str());
                let mut p: usize = 0;
                while p < out.len() && !chars_lt(
                    key.as_slice(),
                    chars_of(self.name_keys[out[p]].as_str()).as_slice(),
                )
                    invariant
                        self.wf(),
                        ls == self.langs(),
                        n == ls.len(),
                        i < n,
                        key@ == sort_key(ls[i as int]),
                        p <= out@.len(),
                        forall|a: int| 0 <= a < out@.len() ==> #[trigger] out@[a] < i,
                        forall|a: int| 0 <= a < p ==> lex_lt(#[trigger] sort_key(ls[out@[a] as int]), key@),
                    decreases out@.len() - p,
                {
                    proof {
                        let o = out@[p as int] as int;
                        lemma_names_distinct(ls, o, i as int);
                        lemma_lex_total(sort_key(ls[o]), key@);
                    }
                    p = p + 1;
                }
                let ghost before = out@;
                out.insert(p, i);
                proof {
                    assert(out@ == before.insert(p as int, i));
                    assert forall|a: int| 0 <= a < out@.len() implies #[trigger] out@[a] < i + 1 by {
                        if a < p {
                            assert(out@[a] == before[a]);
                        } else if a > p {
                            assert(out@[a] == before[a - 1]);
                        }
                    }
                    assert forall|x: usize| out@.contains(x) <==> (x < i + 1 && selects(which, ls[x as int])) by {
                        if out@.contains(x) {
                            let a = choose|a: int| 0 <= a < out@.len() && out@[a] == x;
                            if a < p {
                                assert(before.contains(x));
                            } else if a > p {
                                assert(before[a - 1] == x);
                                assert(before.contains(x));
                            }
                        }
                        if x < i + 1 && selects(which, ls[x as int]) {
                            if x == i {
                                assert(out@[p as int] == x);
                            } else {
                                assert(before.contains(x));
                                let a = choose|a: int| 0 <= a < before.len() && before[a] == x;
                                if a < p {
                                    assert(out@[a] == x);
                                } else {
                                    assert(out@[a + 1] == x);
                                }
                            }
                        }
                    }
                    assert forall|a: int, b: int| 0 <= a < b < out@.len() implies lex_lt(
                        #[trigger] sort_key(ls[out@[a] as int]),
                        #[trigger] sort_key(ls[out@[b] as int]),
                    ) by {
                        if b < p {
                            assert(out@[a] == before[a] && out@[b] == before[b]);
                        } else if b == p {
                            assert(out@[a] == before[a]);
                        } else if a > p {
                            assert(out@[a] == before[a - 1] && out@[b] == before[b - 1]);
                        } else if a == p {
                            assert(out@[b] == before[b - 1]);
                            assert(p < before.len());
                            if b - 1 > p {
                                assert(lex_lt(sort_key(ls[before[p as int] as int]), sort_key(ls[before[b - 1] as int])));
                                lemma_lex_transitive(key@, sort_key(ls[before[p as int] as int]), sort_key(ls[before[b - 1] as int]));
                            }
                        } else {
                            assert(out@[a] == before[a] && out@[b] == before[b - 1]);
                        }
                    }
                }
            }
            i = i + 1;
        }
        out
    }
}

impl Language {
    /// All languages, in catalogue order.
    pub fn all(registry: &Registry) -> (r: &[Language])
        ensures
            r@ == registry.langs(),
    {
        registry.languages.as_slice()
    }

    /// Popular languages, ordered by case-folded name.
    pub fn popular(registry: &Registry) -> (r: Vec<usize>)
        requires
            registry.wf(),
        ensures
            is_listing(registry.langs(), Selection::Popular, r@),
    {
        registry.listing(Selection::Popular)
    }

    /// Languages that are not popular, ordered by case-folded name.
    pub fn unpopular(registry: &Registry) -> (r: Vec<usize>)
        requires
            registry.wf(),
        ensures
            is_listing(registry.langs(), Selection::Unpopular, r@),
    {
        registry.listing(Selection::Unpopular)
    }

    /// Languages that have a colour, ordered by case-folded name.
    pub fn colors(registry: &Registry) -> (r: Vec<usize>)
        requires
            registry.wf(),
        ensures
            is_listing(registry.langs(), Selection::Colored, r@),
    {
        registry.listing(Selection::Colored)
    }

    /// The alias a language gets when it names none: its case-folded name with
    /// spaces turned into dashes.
    pub fn default_alias(&self) -> (r: String)
        ensures
            r@ == default_alias_of(self.name@),
    {
        let lowered = to_lower(self.name.as_str());
        let cs = chars_of(lowered.as_str());
        let mut out: Vec<char> = Vec::new();
        let mut j: usize = 0;
        while j < cs.len()
            invariant
                j <= cs@.len(),
                out@ == cs@.take(j as int).map_values(|c: char| if c == ' ' { '-' } else { c }),
            decreases cs@.len() - j,
        {
            out.push(if cs[j] == ' ' { '-' } else { cs[j] });
            proof {
                assert(cs@.take(j + 1) =~= cs@.take(j as int).push(cs@[j as int]));
                assert(out@ =~= cs@.take(j + 1).map_values(|c: char| if c == ' ' { '-' } else { c }));
            }
            j = j + 1;
        }
        proof {
            assert(cs@.take(j as int) =~= cs@);
        }
        string_of(out.as_slice())
    }

    /// The language that statistics for the language at `index` roll up into: the one
    /// named by its group name, or itself.
    pub fn group(registry: &Registry, index: usize) -> (r: Option<usize>)
        requires
            registry.wf(),
            index < registry.langs().len(),
        ensures
            as_index(r) == group_of(registry.langs(), index as int),
            r matches Some(g) ==> g < registry.langs().len(),
    {
        match &registry.languages[index].group_name {
            Some(g) => {
                let r = Language::find_by_name(registry, g.as_str());
                proof {
                    lemma_name_lookup_bounds(registry.langs(), g@);
                }
                r
            },
            None => Some(index),
        }
    }

    /// Whether the language is popular.
    pub fn is_popular(&self) -> (r: bool)
        ensures
            r == self.popular,
    {
        self.popular
    }

    /// Whether the language is not popular.
    pub fn is_unpopular(&self) -> (r: bool)
        ensures
            r == !self.popular,
    {
        !self.popular
    }
}

pub proof fn lemma_first_match_bounds(ls: Seq<Language>, p: spec_fn(Language) -> bool)
    ensures
        first_match(ls, p, 0) matches Some(i) ==> 0 <= i < ls.len() && p(ls[i]),
{
    if first_match(ls, p, 0) is Some {
        lemma_first_match_found(ls, p, 0);
    }
}

/// A name lookup yields an index into the catalogue.
pub proof fn lemma_name_lookup_bounds(ls: Seq<Language>, s: Seq<char>)
    ensures
        name_lookup(ls, s) matches Some(i) ==> 0 <= i < ls.len(),
{
    lemma_first_match_bounds(ls, named(lower_of(s)));
    if let Some(p) = find_char(s, ',', 0) {
        lemma_first_match_bounds(ls, named(lower_of(trim(s.take(p)))));
    }
}

/// An alias lookup yields an index into the catalogue.
pub proof fn lemma_alias_lookup_bounds(ls: Seq<Language>, s: Seq<char>)
    ensures
        alias_lookup(ls, s) matches Some(i) ==> 0 <= i < ls.len(),
{
    lemma_first_match_bounds(ls, aliased(lower_of(s)));
    if let Some(p) = find_char(s, ',', 0) {
        lemma_first_match_bounds(ls, aliased(lower_of(trim(s.take(p)))));
    }
}

proof fn lemma_first_match_is(ls: Seq<Language>, p: spec_fn(Language) -> bool, i: int, k: int)
    requires
        0 <= k <= i < ls.len(),
        p(ls[i]),
        forall|q: int| 0 <= q < i ==> !p(#[trigger] ls[q]),
    ensures
        first_match(ls, p, k) == Some(i),
    decreases i - k,
{
    if k < i {
        lemma_first_match_is(ls, p, i, k + 1);
    }
}

/// A label of the language at `i`, once case-folded, is a label of no other language.
proof fn lemma_label_owned(ls: Seq<Language>, i: int, a: int, q: int, b: int)
    requires
        catalogue_valid(ls),
        0 <= i < ls.len(),
        0 <= q < ls.len(),
        0 <= a < label_count(ls[i]),
        0 <= b < label_count(ls[q]),
        label_key(ls[q], b) == label_key(ls[i], a),
    ensures
        q == i,
{
    if q != i {
        assert(has_label(ls[q], label_key(ls[i], a)));
        assert(labelled_elsewhere(ls, i, label_key(ls[i], a)));
        assert(label_clashes(ls, i));
    }
}

/// A label without a comma takes no second lookup.
proof fn lemma_no_comma(s: Seq<char>)
    requires
        valid_label(s),
    ensures
        find_char(s, ',', 0) is None,
{
    crate::text::lemma_find_char_bounds(s, ',', 0);
    if let Some(p) = find_char(s, ',', 0) {
        assert(s.contains(','));
    }
}

/// Every language of a registry is what `lookup` finds for its own name and for
/// each of its aliases.
pub proof fn lemma_lookup_finds_own_labels(registry: &Registry, i: int)
    requires
        registry.wf(),
        0 <= i < registry.langs().len(),
    ensures
        lookup_spec(registry.langs(), registry.langs()[i].name@) == Some(i),
        forall|j: int|
            0 <= j < registry.langs()[i].aliases@.len() ==> lookup_spec(
                registry.langs(),
                #[trigger] registry.langs()[i].aliases@[j]@,
            ) == Some(i),
{
    let ls = registry.langs();
    assert(labels_valid(ls[i]));
    let key = lower_of(ls[i].name@);
    assert forall|q: int| 0 <= q < i implies !named(key)(#[trigger] ls[q]) by {
        if named(key)(ls[q]) {
            assert(label_key(ls[q], 0) == label_key(ls[i], 0));
            lemma_label_owned(ls, i, 0, q, 0);
        }
    }
    lemma_first_match_is(ls, named(key), i, 0);
    assert forall|j: int| 0 <= j < ls[i].aliases@.len() implies lookup_spec(
        ls,
        #[trigger] ls[i].aliases@[j]@,
    ) == Some(i) by {
        let s = ls[i].aliases@[j]@;
        let k = lower_of(s);
        assert(ls[i].aliases@.len() > 0);
        assert(alias_at(ls[i], j) == s);
        assert(valid_label(s));
        assert(label_key(ls[i], j + 1) == k);
        lemma_first_match_bounds(ls, named(k));
        if let Some(x) = first_match(ls, named(k), 0) {
            assert(label_key(ls[x], 0) == k);
            lemma_label_owned(ls, i, j + 1, x, 0);
        } else {
            lemma_no_comma(s);
            assert forall|q: int| 0 <= q < i implies !aliased(k)(#[trigger] ls[q]) by {
                if aliased(k)(ls[q]) {
                    let b = choose|b: int| 0 <= b < ls[q].aliases@.len() && #[trigger] lower_of(ls[q].aliases@[b]@) == k;
                    assert(label_key(ls[q], b + 1) == k);
                    lemma_label_owned(ls, i, j + 1, q, b + 1);
                }
            }
            assert(aliased(k)(ls[i]));
            lemma_first_match_is(ls, aliased(k), i, 0);
        }
    }
}

/// Every index of `s` is below `n`.
pub open spec fn bounded(s: Seq<usize>, n: int) -> bool {
    forall|k: int| 0 <= k < s.len() ==> #[trigger] s[k] < n
}

pub proof fn lemma_all_matches_bounded(ls: Seq<Language>, p: spec_fn(Language) -> bool, n: int)
    requires
        0 <= n <= ls.len() <= usize::MAX,
    ensures
        bounded(all_matches(ls, p, n), ls.len() as int),
    decreases n,
{
    if n > 0 {
        lemma_all_matches_bounded(ls, p, n - 1);
    }
}

proof fn lemma_extension_match_bounded(ls: Seq<Language>, name: Seq<char>, i: int)
    requires
        ls.len() <= usize::MAX,
    ensures
        bounded(extension_match_from(ls, name, i), ls.len() as int),
    decreases name.len() - i,
{
    if 0 <= i < name.len() {
        lemma_all_matches_bounded(ls, with_extension(name.subrange(i, name.len() as int)), ls.len() as int);
        lemma_extension_match_bounded(ls, name, i + 1);
    }
}

pub proof fn lemma_extension_lookup_bounded(ls: Seq<Language>, path: Seq<char>)
    requires
        ls.len() <= usize::MAX,
    ensures
        bounded(extension_lookup(ls, path), ls.len() as int),
{
    lemma_extension_match_bounded(ls, lower_of(basename(path)), 0);
}

/// A lookup yields an index into the catalogue.
pub proof fn lemma_lookup_bounds(ls: Seq<Language>, s: Seq<char>)
    ensures
        lookup_spec(ls, s) matches Some(i) ==> 0 <= i < ls.len(),
{
    lemma_name_lookup_bounds(ls, s);
    lemma_alias_lookup_bounds(ls, s);
}

impl Registry {
    /// A registry holds no more languages than an index can count.
    pub proof fn lemma_len_fits(&self)
        requires
            self.wf(),
        ensures
            self.langs().len() <= usize::MAX,
    {
    }
}

} // verus!
