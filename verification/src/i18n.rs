//! Translation lookup: texts by key, with `{{name}}` placeholders filled in,
//! and the choice of the language and its catalog.

use std::collections::BTreeMap;
use vstd::prelude::*;
use crate::catalog::{DEFAULT_DE, DEFAULT_EN};
use crate::text::{chars_of, lowercase, replace, replace_all, same_text, string_of, to_lowercase};

verus! {

/// What `serde_json` makes of `content` when asked for an object whose
/// values are all strings: its entries in ascending key order, or nothing
/// when `content` is no such object.
pub uninterp spec fn json_string_table(content: Seq<char>) -> Option<Seq<(Seq<char>, Seq<char>)>>;

#[verifier::external_type_specification]
#[verifier::external_body]
pub struct ExJsonError(serde_json::Error);

/// Parses `content` as a JSON object of strings (`serde_json::from_str`
/// into a `BTreeMap<String, String>`) and hands its entries out in the
/// map's order; the outcome is named `json_string_table`.
#[verifier::external_body]
fn parse_string_table(content: &str) -> (table: Result<Vec<(String, String)>, serde_json::Error>)
    ensures
        match table {
            Ok(entries) => json_string_table(content@) == Some(entry_views(entries@)),
            Err(_) => json_string_table(content@) is None,
        },
{
    serde_json::from_str::<BTreeMap<String, String>>(content).map(|m| m.into_iter().collect())
}

/// The character views of key/text pairs.
pub open spec fn entry_views(entries: Seq<(String, String)>) -> Seq<(Seq<char>, Seq<char>)> {
    entries.map_values(|e: (String, String)| (e.0@, e.1@))
}

/// The map that a list of key/text pairs describes; a later pair wins over
/// an earlier one with the same key.
pub open spec fn entries_map(entries: Seq<(Seq<char>, Seq<char>)>) -> Map<Seq<char>, Seq<char>>
    decreases entries.len(),
{
    if entries.len() == 0 {
        Map::empty()
    } else {
        entries_map(entries.drop_last()).insert(entries.last().0, entries.last().1)
    }
}

/// The table that catalog `content` yields: its entries when it parses, the
/// built-in English table otherwise.
pub open spec fn table_from(content: Seq<char>) -> Map<Seq<char>, Seq<char>> {
    match json_string_table(content) {
        Some(entries) => entries_map(entries),
        None => english_table(),
    }
}

/// The built-in English table (empty should the built-in catalog not parse).
pub open spec fn english_table() -> Map<Seq<char>, Seq<char>> {
    match json_string_table(DEFAULT_EN@) {
        Some(entries) => entries_map(entries),
        None => Map::empty(),
    }
}

/// The text for a key that has no translation: the key in braces.
pub open spec fn missing_text(key: Seq<char>) -> Seq<char> {
    "{"@ + key + "}"@
}

/// The text of `key` in `table`.
pub open spec fn lookup_text(table: Map<Seq<char>, Seq<char>>, key: Seq<char>) -> Seq<char> {
    if table.contains_key(key) {
        table[key]
    } else {
        missing_text(key)
    }
}

/// The token that stands for placeholder `name` in a text: `{{name}}`.
pub open spec fn placeholder_token(name: Seq<char>) -> Seq<char> {
    "{{"@ + name + "}}"@
}

/// `template` with the placeholders of `values` filled in, one after the
/// other in the order given.
pub open spec fn fill(template: Seq<char>, values: Seq<(Seq<char>, Seq<char>)>) -> Seq<char>
    decreases values.len(),
{
    if values.len() == 0 {
        template
    } else {
        replace_all(
            fill(template, values.drop_last()),
            placeholder_token(values.last().0),
            values.last().1,
        )
    }
}

/// The character views of placeholder name/value pairs.
pub open spec fn placeholder_views(values: Seq<(&str, String)>) -> Seq<(Seq<char>, Seq<char>)> {
    values.map_values(|p: (&str, String)| (p.0@, p.1@))
}

/// The first part of a locale name such as `de_DE.UTF-8`: everything before
/// the first `_`, `-` or `.`.
pub open spec fn locale_prefix(raw: Seq<char>) -> Seq<char>
    decreases raw.len(),
{
    if raw.len() == 0 || raw[0] == '_' || raw[0] == '-' || raw[0] == '.' {
        Seq::empty()
    } else {
        seq![raw[0]] + locale_prefix(raw.drop_first())
    }
}

/// The language code chosen from the application's own language setting
/// and, when that is absent, the system locale: the lower-cased part before
/// the first separator, or `en` when there is none or it is empty.
pub open spec fn chosen_language(preferred: Option<Seq<char>>, system: Option<Seq<char>>) -> Seq<char> {
    let raw = match preferred {
        Some(p) => Some(p),
        None => system,
    };
    match raw {
        None => "en"@,
        Some(r) => if lowercase(locale_prefix(r)).len() == 0 {
            "en"@
        } else {
            lowercase(locale_prefix(r))
        },
    }
}

/// The language code from the values of the application's language variable
/// (`preferred`) and of the system locale variable (`system`).
pub fn language_code(preferred: Option<&str>, system: Option<&str>) -> (code: String)
    ensures
        code@ == chosen_language(
            match preferred {
                Some(p) => Some(p@),
                None => None,
            },
            match system {
                Some(s) => Some(s@),
                None => None,
            },
        ),
{
    let raw = match preferred {
        Some(p) => Some(p),
        None => system,
    };
    match raw {
        None => "en".to_owned(),
        Some(r) => {
            let chars = chars_of(r);
            let mut prefix: Vec<char> = Vec::new();
            let mut i: usize = 0;
            assert(r@.skip(0) =~= r@);
            assert(prefix@ + locale_prefix(r@) =~= locale_prefix(r@));
            while i < chars.len() && chars[i] != '_' && chars[i] != '-' && chars[i] != '.'
                invariant
                    chars@ == r@,
                    i <= chars.len(),
                    prefix@ == r@.take(i as int),
                    locale_prefix(r@) == prefix@ + locale_prefix(r@.skip(i as int)),
                decreases chars.len() - i,
            {
                proof {
                    assert(r@.skip(i as int).drop_first() =~= r@.skip(i + 1));
                    assert(prefix@ + (seq![chars@[i as int]] + locale_prefix(r@.skip(i + 1)))
                        =~= prefix@.push(chars@[i as int]) + locale_prefix(r@.skip(i + 1)));
                }
                prefix.push(chars[i]);
                i = i + 1;
            }
            proof {
                assert(locale_prefix(r@.skip(i as int)) =~= Seq::<char>::empty());
                assert(prefix@ + Seq::<char>::empty() =~= prefix@);
            }
            let prefix_text = string_of(&prefix);
            let code = to_lowercase(prefix_text.as_str());
            if code.as_str().is_empty() {
                "en".to_owned()
            } else {
                code
            }
        },
    }
}

/// The built-in catalog of a language code, for the languages that have one
/// (`de` and `en`).
pub fn default_for_code(code: &str) -> (catalog: Option<&'static str>)
    ensures
        code@ == "de"@ ==> catalog == Some(DEFAULT_DE),
        code@ == "en"@ ==> catalog == Some(DEFAULT_EN),
        code@ != "de"@ && code@ != "en"@ ==> catalog is None,
{
    proof {
        reveal_strlit("de");
        reveal_strlit("en");
        assert("de"@[0] != "en"@[0]);
    }
    if same_text(code, "de") {
        Some(DEFAULT_DE)
    } else if same_text(code, "en") {
        Some(DEFAULT_EN)
    } else {
        None
    }
}

/// Translated texts by key.
#[derive(Clone, Debug)]
pub struct I18n {
    strings: Vec<(String, String)>,
}

impl View for I18n {
    type V = Map<Seq<char>, Seq<char>>;

    closed spec fn view(&self) -> Map<Seq<char>, Seq<char>> {
        entries_map(entry_views(self.strings@))
    }
}

proof fn lemma_entries_map_last(entries: Seq<(Seq<char>, Seq<char>)>, i: int, key: Seq<char>)
    requires
        0 <= i <= entries.len(),
        forall|k: int| i <= k < entries.len() ==> #[trigger] entries[k].0 != key,
    ensures
        entries_map(entries).contains_key(key) == entries_map(entries.take(i)).contains_key(key),
        entries_map(entries).contains_key(key) ==> entries_map(entries)[key] == entries_map(
            entries.take(i),
        )[key],
    decreases entries.len() - i,
{
    if i < entries.len() {
        lemma_entries_map_last(entries.drop_last(), i, key);
        assert(entries.drop_last().take(i) =~= entries.take(i));
    } else {
        assert(entries.take(i) =~= entries);
    }
}

impl I18n {
    /// The texts of catalog `content`; the built-in English texts when the
    /// catalog is no JSON object of strings.
    pub fn from_content(content: &str) -> (i18n: I18n)
        ensures
            i18n@ == table_from(content@),
    {
        match parse_string_table(content) {
            Ok(strings) => I18n { strings },
            Err(_) => I18n::from_default_en(),
        }
    }

    /// The built-in English texts.
    pub fn from_default_en() -> (i18n: I18n)
        ensures
            i18n@ == english_table(),
    {
        match parse_string_table(DEFAULT_EN) {
            Ok(strings) => I18n { strings },
            Err(_) => {
                let i18n = I18n { strings: Vec::new() };
                assert(entry_views(i18n.strings@) =~= Seq::<(Seq<char>, Seq<char>)>::empty());
                i18n
            },
        }
    }

    /// The texts for language `code`: those of the language file when it
    /// could be read (`file_content`), else the built-in catalog of the
    /// language, else the built-in English one.
    pub fn resolve(file_content: Option<&str>, code: &str) -> (i18n: I18n)
        ensures
            i18n@ == table_from(
                match file_content {
                    Some(c) => c@,
                    None => if code@ == "de"@ {
                        DEFAULT_DE@
                    } else {
                        DEFAULT_EN@
                    },
                },
            ),
    {
        match file_content {
            Some(content) => I18n::from_content(content),
            None => match default_for_code(code) {
                Some(catalog) => I18n::from_content(catalog),
                None => I18n::from_content(DEFAULT_EN),
            },
        }
    }

    /// Whether `key` has a translation.
    pub fn has_key(&self, key: &str) -> (found: bool)
        ensures
            found == self@.contains_key(key@),
    {
        match self.find(key) {
            Some(_) => true,
            None => false,
        }
    }

    fn find(&self, key: &str) -> (found: Option<usize>)
        ensures
            match found {
                Some(i) => i < self.strings@.len() && self@.contains_key(key@) && self@[key@]
                    == self.strings@[i as int].1@,
                None => !self@.contains_key(key@),
            },
    {
        let ghost entries = entry_views(self.strings@);
        let mut i: usize = self.strings.len();
        while i > 0
            invariant
                i <= self.strings.len(),
                entries == entry_views(self.strings@),
                forall|k: int| i <= k < entries.len() ==> #[trigger] entries[k].0 != key@,
            decreases i,
        {
            let j = i - 1;
            if same_text(self.strings[j].0.as_str(), key) {
                proof {
                    lemma_entries_map_last(entries, i as int, key@);
                    assert(entries.take(i as int).drop_last() =~= entries.take(j as int));
                    assert(entries.take(i as int).last() == entries[j as int]);
                }
                return Some(j);
            }
            i = j;
        }
        proof {
            lemma_entries_map_last(entries, 0, key@);
            assert(entries.take(0) =~= Seq::<(Seq<char>, Seq<char>)>::empty());
        }
        None
    }

    /// The text of `key`, or the key in braces when it has none.
    pub fn text(&self, key: &str) -> (text: String)
        ensures
            text@ == lookup_text(self@, key@),
    {
        match self.find(key) {
            Some(i) => self.strings[i].1.clone(),
            None => {
                let mut text = "{".to_owned();
                text.append(key);
                text.append("}");
                text
            },
        }
    }

    /// The text of `key` with every `{{name}}` of `placeholders` replaced by
    /// its value, the placeholders taken in the order given.
    pub fn text_with(&self, key: &str, placeholders: &[(&str, String)]) -> (text: String)
        ensures
            text@ == fill(lookup_text(self@, key@), placeholder_views(placeholders@)),
    {
        let mut template = self.text(key);
        let mut i: usize = 0;
        while i < placeholders.len()
            invariant
                i <= placeholders@.len(),
                template@ == fill(
                    lookup_text(self@, key@),
                    placeholder_views(placeholders@).take(i as int),
                ),
            decreases placeholders.len() - i,
        {
            let (name, value) = &placeholders[i];
            let mut token = "{{".to_owned();
            token.append(name);
            token.append("}}");
            proof {
                let views = placeholder_views(placeholders@);
                assert(views.take(i + 1).drop_last() =~= views.take(i as int));
                assert(views.take(i + 1).last() == (name@, value@));
                reveal_strlit("{{");
                assert(token@.len() > 0);
            }
            template = replace(template.as_str(), token.as_str(), value.as_str());
            i = i + 1;
        }
        assert(placeholder_views(placeholders@).take(i as int) =~= placeholder_views(placeholders@));
        template
    }
}


/// Filling no placeholders gives the template itself, so `text_with` with
/// an empty list is `text`.
pub proof fn lemma_fill_nothing(template: Seq<char>)
    ensures
        fill(template, Seq::empty()) == template,
{
}

/// A placeholder that a text does not mention leaves it as it is.
pub proof fn lemma_replace_absent(s: Seq<char>, token: Seq<char>, value: Seq<char>)
    requires
        !crate::text::contains_seq(s, token),
    ensures
        replace_all(s, token, value) == s,
    decreases s.len(),
{
    if s.len() > 0 && token.len() > 0 {
        assert(!crate::text::occurs_at(s, token, 0));
        let rest = s.skip(1);
        assert(!crate::text::contains_seq(rest, token)) by {
            if crate::text::contains_seq(rest, token) {
                let i = choose|i: int| crate::text::occurs_at(rest, token, i);
                assert(rest.subrange(i, i + token.len()) =~= s.subrange(i + 1, i + 1 + token.len()));
                assert(crate::text::occurs_at(s, token, i + 1));
            }
        }
        lemma_replace_absent(rest, token, value);
        assert(seq![s[0]] + rest =~= s);
    }
}

/// A text without `{` does not mention any placeholder.
proof fn lemma_no_brace_no_token(s: Seq<char>, name: Seq<char>)
    requires
        forall|i: int| 0 <= i < s.len() ==> s[i] != '{',
    ensures
        !crate::text::contains_seq(s, placeholder_token(name)),
{
    reveal_strlit("{{");
    let token = placeholder_token(name);
    if crate::text::contains_seq(s, token) {
        let i = choose|i: int| crate::text::occurs_at(s, token, i);
        assert(s.subrange(i, i + token.len())[0] == token[0]);
    }
}

proof fn lemma_replace_single(prefix: Seq<char>, token: Seq<char>, value: Seq<char>, suffix: Seq<char>)
    requires
        token.len() > 0,
        token[0] == '{',
        forall|i: int| 0 <= i < prefix.len() ==> prefix[i] != '{',
        !crate::text::contains_seq(suffix, token),
    ensures
        replace_all(prefix + token + suffix, token, value) == prefix + value + suffix,
    decreases prefix.len(),
{
    let whole = prefix + token + suffix;
    if prefix.len() == 0 {
        assert(whole =~= token + suffix);
        assert(whole.subrange(0, token.len() as int) =~= token);
        assert(whole.skip(token.len() as int) =~= suffix);
        lemma_replace_absent(suffix, token, value);
        assert(value + suffix =~= prefix + value + suffix);
    } else {
        let rest = prefix.skip(1);
        lemma_replace_single(rest, token, value, suffix);
        assert(whole.subrange(0, token.len() as int)[0] == prefix[0]);
        assert(!crate::text::occurs_at(whole, token, 0));
        assert(whole.skip(1) =~= rest + token + suffix);
        assert(seq![prefix[0]] + (rest + value + suffix) =~= prefix + value + suffix);
    }
}

/// A placeholder written once, between texts without `{`, is replaced by
/// its value and the rest of the text is kept.
pub proof fn lemma_fill_single_placeholder(
    prefix: Seq<char>,
    name: Seq<char>,
    value: Seq<char>,
    suffix: Seq<char>,
)
    requires
        forall|i: int| 0 <= i < prefix.len() ==> prefix[i] != '{',
        forall|i: int| 0 <= i < suffix.len() ==> suffix[i] != '{',
    ensures
        fill(prefix + placeholder_token(name) + suffix, seq![(name, value)]) == prefix + value
            + suffix,
{
    reveal_strlit("{{");
    let token = placeholder_token(name);
    let values = seq![(name, value)];
    assert(values.drop_last() =~= Seq::<(Seq<char>, Seq<char>)>::empty());
    assert(values.last() == (name, value));
    assert(token[0] == '{');
    lemma_no_brace_no_token(suffix, name);
    lemma_replace_single(prefix, token, value, suffix);
    let whole = prefix + token + suffix;
    assert(fill(whole, values.drop_last()) == whole);
    assert(fill(whole, values) == replace_all(whole, token, value));
}

} // verus!
