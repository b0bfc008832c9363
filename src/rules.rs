use vstd::prelude::*;

verus! {

/// Name of the category that takes every file no rule claims.
pub open spec fn uncategorized() -> Seq<char> {
    seq!['U', 'n', 'c', 'a', 't', 'e', 'g', 'o', 'r', 'i', 'z', 'e', 'd']
}

pub open spec fn strings_view(v: Seq<String>) -> Seq<Seq<char>> {
    v.map_values(|s: String| s@)
}

pub open spec fn lists_view(v: Seq<Vec<String>>) -> Seq<Seq<Seq<char>>> {
    v.map_values(|l: Vec<String>| strings_view(l@))
}

/// The category of a file with extension `ext`: the name of the first
/// category whose list holds `ext`, or `Uncategorized` when none does.
pub open spec fn classify_spec(
    ext: Seq<char>,
    names: Seq<Seq<char>>,
    exts: Seq<Seq<Seq<char>>>,
) -> Seq<char>
    decreases exts.len(),
{
    if exts.len() == 0 {
        uncategorized()
    } else if exts[0].contains(ext) {
        names[0]
    } else {
        classify_spec(ext, names.drop_first(), exts.drop_first())
    }
}

/// An extension that exactly one category lists classifies to that category.
pub proof fn lemma_classify_listed_once(
    ext: Seq<char>,
    names: Seq<Seq<char>>,
    exts: Seq<Seq<Seq<char>>>,
    k: int,
)
    requires
        names.len() == exts.len(),
        0 <= k < exts.len(),
        exts[k].contains(ext),
        forall|j: int| 0 <= j < exts.len() && j != k ==> !(#[trigger] exts[j]).contains(ext),
    ensures
        classify_spec(ext, names, exts) == names[k],
    decreases exts.len(),
{
    if k > 0 {
        assert(!exts[0].contains(ext));
        assert forall|j: int|
            0 <= j < exts.drop_first().len() && j != k - 1 implies !(
            #[trigger] exts.drop_first()[j]).contains(ext) by {
            assert(exts.drop_first()[j] == exts[j + 1]);
        }
        lemma_classify_listed_once(ext, names.drop_first(), exts.drop_first(), k - 1);
    }
}

/// An extension that no category lists classifies to `Uncategorized`.
pub proof fn lemma_classify_unlisted(ext: Seq<char>, names: Seq<Seq<char>>, exts: Seq<Seq<Seq<char>>>)
    requires
        forall|j: int| 0 <= j < exts.len() ==> !(#[trigger] exts[j]).contains(ext),
    ensures
        classify_spec(ext, names, exts) == uncategorized(),
    decreases exts.len(),
{
    if exts.len() > 0 {
        assert(!exts[0].contains(ext));
        assert forall|j: int| 0 <= j < exts.drop_first().len() implies !(
        #[trigger] exts.drop_first()[j]).contains(ext) by {
            assert(exts.drop_first()[j] == exts[j + 1]);
        }
        lemma_classify_unlisted(ext, names.drop_first(), exts.drop_first());
    }
}

/// Whether `ext` is in `list`, compared character by character.
pub fn list_contains(list: &Vec<String>, ext: &String) -> (r: bool)
    ensures
        r == strings_view(list@).contains(ext@),
{
    let mut i: usize = 0;
    while i < list.len()
        invariant
            i <= list.len(),
            forall|j: int| 0 <= j < i ==> list@[j]@ != ext@,
        decreases list.len() - i,
    {
        if list[i] == *ext {
            assert(strings_view(list@)[i as int] == ext@);
            return true;
        }
        i = i + 1;
    }
    assert(!strings_view(list@).contains(ext@)) by {
        if strings_view(list@).contains(ext@) {
            let k = choose|k: int| 0 <= k < strings_view(list@).len() && strings_view(list@)[k] == ext@;
            assert(list@[k]@ == ext@);
        }
    }
    false
}

/// The folder that a file with extension `file_extension` goes to: the name
/// of the first category whose extension list holds it, else `Uncategorized`.
pub fn get_folder_name(
    file_extension: &str,
    folder_names: &Vec<String>,
    file_extensions: &Vec<Vec<String>>,
) -> (r: String)
    requires
        file_extensions.len() <= folder_names.len(),
    ensures
        r@ == classify_spec(
            file_extension@,
            strings_view(folder_names@),
            lists_view(file_extensions@),
        ),
{
    let ext = file_extension.to_owned();
    let ghost names = strings_view(folder_names@);
    let ghost exts = lists_view(file_extensions@);
    let mut i: usize = 0;
    assert(names.skip(0) =~= names);
    assert(exts.skip(0) =~= exts);
    while i < file_extensions.len()
        invariant
            i <= file_extensions.len() <= folder_names.len(),
            ext@ == file_extension@,
            names == strings_view(folder_names@),
            exts == lists_view(file_extensions@),
            classify_spec(ext@, names, exts) == classify_spec(
                ext@,
                names.skip(i as int),
                exts.skip(i as int),
            ),
        decreases file_extensions.len() - i,
    {
        assert(names.skip(i as int).drop_first() =~= names.skip(i + 1));
        assert(exts.skip(i as int).drop_first() =~= exts.skip(i + 1));
        if list_contains(&file_extensions[i], &ext) {
            return folder_names[i].clone();
        }
        i = i + 1;
    }
    assert(exts.skip(i as int).len() == 0);
    let r = "Uncategorized".to_owned();
    proof {
        reveal_strlit("Uncategorized");
    }
    assert(r@ =~= uncategorized());
    r
}


/// Why a rule table could not be had.
#[derive(PartialEq, Eq, Structural, Debug, Clone, Copy)]
pub enum ConfigError {
    /// The configuration could not be read.
    Unreadable,
    /// The text is not one object whose values are arrays of strings.
    Malformed,
    /// Two categories carry the same name.
    DuplicateCategory,
}

pub open spec fn rows_names(rows: Seq<(String, Vec<String>)>) -> Seq<Seq<char>> {
    rows.map_values(|r: (String, Vec<String>)| r.0@)
}

pub open spec fn rows_exts(rows: Seq<(String, Vec<String>)>) -> Seq<Seq<Seq<char>>> {
    rows.map_values(|r: (String, Vec<String>)| strings_view(r.1@))
}

/// What serde_json reads from `text` as an object of string arrays: its
/// entries as `(key, values)` rows in the order the text lists the keys (a
/// repeated key keeps its first place and its last value), or `None` when
/// the text is no such object.
pub uninterp spec fn parsed_rules(text: Seq<char>) -> Option<Seq<(Seq<char>, Seq<Seq<char>>)>>;

pub open spec fn rows_view(rows: Seq<(String, Vec<String>)>) -> Seq<(Seq<char>, Seq<Seq<char>>)> {
    rows.map_values(|r: (String, Vec<String>)| (r.0@, strings_view(r.1@)))
}

#[verifier::external_type_specification]
#[verifier::external_body]
pub struct ExJsonError(serde_json::Error);

/// Relies on `serde_json::from_str` into an `indexmap::IndexMap<String,
/// Vec<String>>`: it succeeds exactly on an object whose values are arrays
/// of strings, and the map hands its entries back in insertion order.
#[verifier::external_body]
fn parse_rule_rows(text: &str) -> (r: Result<Vec<(String, Vec<String>)>, serde_json::Error>)
    ensures
        match r {
            Ok(rows) => parsed_rules(text@) == Some(rows_view(rows@)),
            Err(_) => parsed_rules(text@) is None,
        },
{
    serde_json::from_str::<indexmap::IndexMap<String, Vec<String>>>(text).map(
        |m| m.into_iter().collect(),
    )
}

/// A copy of a list of strings.
pub fn clone_strings(v: &Vec<String>) -> (r: Vec<String>)
    ensures
        strings_view(r@) == strings_view(v@),
{
    let mut r: Vec<String> = Vec::new();
    let mut i: usize = 0;
    while i < v.len()
        invariant
            i <= v.len(),
            r@.len() == i,
            forall|k: int| 0 <= k < i ==> r@[k]@ == v@[k]@,
        decreases v.len() - i,
    {
        r.push(v[i].clone());
        i = i + 1;
    }
    assert(strings_view(r@) =~= strings_view(v@));
    r
}

/// Splits `(category, extensions)` rows into the list of category names and
/// the aligned list of extension lists.
pub fn get_folder_and_extension_lists(rows: &Vec<(String, Vec<String>)>) -> (r: (
    Vec<String>,
    Vec<Vec<String>>,
))
    ensures
        strings_view(r.0@) == rows_names(rows@),
        lists_view(r.1@) == rows_exts(rows@),
{
    let mut names: Vec<String> = Vec::new();
    let mut exts: Vec<Vec<String>> = Vec::new();
    let mut i: usize = 0;
    while i < rows.len()
        invariant
            i <= rows.len(),
            names@.len() == i,
            exts@.len() == i,
            forall|k: int| 0 <= k < i ==> names@[k]@ == rows@[k].0@,
            forall|k: int| 0 <= k < i ==> strings_view(exts@[k]@) == strings_view(rows@[k].1@),
        decreases rows.len() - i,
    {
        names.push(rows[i].0.clone());
        exts.push(clone_strings(&rows[i].1));
        i = i + 1;
    }
    assert(strings_view(names@) =~= rows_names(rows@));
    assert(lists_view(exts@) =~= rows_exts(rows@));
    (names, exts)
}

/// Whether no two names in `names` are equal.
pub fn names_distinct(names: &Vec<String>) -> (r: bool)
    ensures
        r == strings_view(names@).no_duplicates(),
{
    let ghost s = strings_view(names@);
    let mut i: usize = 0;
    while i < names.len()
        invariant
            i <= names.len(),
            s == strings_view(names@),
            forall|a: int, b: int| 0 <= a < b < s.len() && a < i ==> s[a] != s[b],
        decreases names.len() - i,
    {
        let mut j: usize = i + 1;
        while j < names.len()
            invariant
                i < j <= names.len(),
                s == strings_view(names@),
                forall|a: int, b: int| 0 <= a < b < s.len() && a < i ==> s[a] != s[b],
                forall|b: int| i < b < j ==> s[i as int] != s[b],
            decreases names.len() - j,
        {
            if names[i] == names[j] {
                assert(s[i as int] == s[j as int]);
                return false;
            }
            j = j + 1;
        }
        i = i + 1;
    }
    true
}

/// Categories in order, each with the extensions (leading `.` included)
/// that it claims. No two categories share a name.
pub struct RuleTable {
    names: Vec<String>,
    extensions: Vec<Vec<String>>,
}

impl RuleTable {
    pub closed spec fn names_view(&self) -> Seq<Seq<char>> {
        strings_view(self.names@)
    }

    pub closed spec fn exts_view(&self) -> Seq<Seq<Seq<char>>> {
        lists_view(self.extensions@)
    }

    pub open spec fn wf(&self) -> bool {
        &&& self.names_view().len() == self.exts_view().len()
        &&& self.names_view().no_duplicates()
    }

    /// The table of the given rows, in their order; refused when two rows
    /// carry the same category name.
    pub fn from_rows(rows: &Vec<(String, Vec<String>)>) -> (r: Result<RuleTable, ConfigError>)
        ensures
            match r {
                Ok(t) => {
                    &&& t.wf()
                    &&& t.names_view() == rows_names(rows@)
                    &&& t.exts_view() == rows_exts(rows@)
                },
                Err(e) => e == ConfigError::DuplicateCategory && !rows_names(rows@).no_duplicates(),
            },
    {
        let (names, extensions) = get_folder_and_extension_lists(rows);
        proof {
            assert(strings_view(names@).len() == rows@.len());
            assert(lists_view(extensions@).len() == rows@.len());
        }
        if !names_distinct(&names) {
            return Err(ConfigError::DuplicateCategory);
        }
        Ok(RuleTable { names, extensions })
    }

    /// The category of a file whose extension is `ext`.
    pub fn classify(&self, ext: &str) -> (r: String)
        requires
            self.wf(),
        ensures
            r@ == classify_spec(ext@, self.names_view(), self.exts_view()),
    {
        get_folder_name(ext, &self.names, &self.extensions)
    }

    /// The category names, in order.
    pub fn folder_names(&self) -> (r: &Vec<String>)
        ensures
            strings_view(r@) == self.names_view(),
    {
        &self.names
    }

    /// The extension lists, aligned with the names.
    pub fn file_extensions(&self) -> (r: &Vec<Vec<String>>)
        ensures
            lists_view(r@) == self.exts_view(),
    {
        &self.extensions
    }
}

/// The error that a configuration text serde_json could not read maps to.
pub fn config_error_from_json(_e: serde_json::Error) -> (r: ConfigError)
    ensures
        r == ConfigError::Malformed,
{
    ConfigError::Malformed
}

/// The rule table that a configuration text describes, its categories in
/// the order the text lists them.
pub fn load_rule_table(text: &str) -> (r: Result<RuleTable, ConfigError>)
    ensures
        match parsed_rules(text@) {
            None => r == Err::<RuleTable, ConfigError>(ConfigError::Malformed),
            Some(rows) => {
                let names = rows.map_values(|x: (Seq<char>, Seq<Seq<char>>)| x.0);
                let exts = rows.map_values(|x: (Seq<char>, Seq<Seq<char>>)| x.1);
                if names.no_duplicates() {
                    &&& r is Ok
                    &&& r->Ok_0.wf()
                    &&& r->Ok_0.names_view() == names
                    &&& r->Ok_0.exts_view() == exts
                } else {
                    r == Err::<RuleTable, ConfigError>(ConfigError::DuplicateCategory)
                }
            },
        },
{
    match parse_rule_rows(text) {
        Err(e) => Err(config_error_from_json(e)),
        Ok(rows) => {
            let ghost v = rows_view(rows@);
            assert(v.map_values(|x: (Seq<char>, Seq<Seq<char>>)| x.0) =~= rows_names(rows@));
            assert(v.map_values(|x: (Seq<char>, Seq<Seq<char>>)| x.1) =~= rows_exts(rows@));
            RuleTable::from_rows(&rows)
        },
    }
}

} // verus!
