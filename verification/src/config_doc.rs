//! The configuration as a document that is edited in place.
use crate::model::{self, EntryModel, ModelEntry};
use crate::text::{self, chars_of};
use vstd::prelude::*;
use vstd::string::*;

verus! {

/// A value of a document: a string by its content, any other value that is no table
/// (a number, a date, an array) as it is written.
pub enum TomlValue {
    Text(Seq<char>),
    Other(Seq<char>),
}

/// The values of a document, each under the keys that lead to it.
pub type Values = Map<Seq<Seq<char>>, TomlValue>;

/// What a document holds: its values, and the keys at its top that stand for tables,
/// be they written with a header, with dotted keys or inline.
#[verifier::ext_equal]
pub struct DocModel {
    pub values: Values,
    pub tables: Set<Seq<char>>,
}

/// An assignment to a document: a string under some keys, or an empty table under a
/// key at the top.
pub enum Edit {
    Text { keys: Seq<Seq<char>>, text: Seq<char> },
    Table { key: Seq<char> },
}

/// A document of toml_edit.
#[verifier::external_type_specification]
#[verifier::external_body]
pub struct ExDocument(toml_edit::DocumentMut);

/// The error of toml_edit.
#[verifier::external_type_specification]
#[verifier::external_body]
pub struct ExTomlError(toml_edit::TomlError);

/// The values that a document holds.
pub uninterp spec fn doc_values(d: toml_edit::DocumentMut) -> Map<Seq<Seq<char>>, TomlValue>;

/// The keys at the top of a document that stand for tables.
pub uninterp spec fn doc_tables(d: toml_edit::DocumentMut) -> Set<Seq<char>>;

/// Whether a document was read from a text and then changed only in ways that leave
/// it what its text says: strings were assigned, or a table under a key that was free.
pub uninterp spec fn doc_clean(d: toml_edit::DocumentMut) -> bool;

/// What toml_edit reads in a text, if it is TOML.
pub uninterp spec fn toml_document(text: Seq<char>) -> Option<DocModel>;

/// The text that a document was read from.
pub uninterp spec fn doc_source(d: toml_edit::DocumentMut) -> Seq<char>;

/// The assignments that were made to a document since it was read, in order.
pub uninterp spec fn doc_edits(d: toml_edit::DocumentMut) -> Seq<Edit>;

/// What toml_edit writes for a document that was read from this text and then had
/// these assignments made, with the comments and the layout that it keeps.
pub uninterp spec fn doc_written(source: Seq<char>, edits: Seq<Edit>) -> Seq<char>;

/// What a document holds.
pub open spec fn contents(d: toml_edit::DocumentMut) -> DocModel {
    DocModel { values: doc_values(d), tables: doc_tables(d) }
}

/// `str::parse` into a `DocumentMut` of toml_edit: whether the text is TOML, and
/// what it holds, depends on the text alone.
#[verifier::external_body]
fn doc_parse(text: &str) -> (r: Result<toml_edit::DocumentMut, toml_edit::TomlError>)
    ensures
        match r {
            Ok(d) => {
                &&& toml_document(text@) == Some(contents(d))
                &&& doc_clean(d)
                &&& doc_source(d) == text@
                &&& doc_edits(d) == Seq::<Edit>::empty()
            },
            Err(_) => toml_document(text@) is None,
        },
{
    text.parse::<toml_edit::DocumentMut>()
}

/// The values whose keys do not begin with these.
pub open spec fn without(values: Values, keys: Seq<Seq<char>>) -> Values {
    values.restrict(Set::new(|p: Seq<Seq<char>>| !keys.is_prefix_of(p)))
}

/// The values with this string under these keys, in place of all that was there.
pub open spec fn with_text(values: Values, keys: Seq<Seq<char>>, text: Seq<char>) -> Values {
    without(values, keys).insert(keys, TomlValue::Text(text))
}

/// The length of the run of a character at the end of a text.
pub open spec fn run_at_end(s: Seq<char>, q: char) -> nat
    decreases s.len(),
{
    if s.len() == 0 || s.last() != q {
        0
    } else {
        1 + run_at_end(s.drop_last(), q)
    }
}

/// Whether no run of quotation marks in a text is longer than 255. toml_edit counts
/// them in 8 bits when it writes a string.
pub open spec fn quotes_fit(s: Seq<char>) -> bool
    decreases s.len(),
{
    s.len() == 0 || (quotes_fit(s.drop_last()) && run_at_end(s, '"') <= 255 && run_at_end(s, '\'')
        <= 255)
}

/// Whether a text can be written as a string of a document.
pub fn fits_document(s: &str) -> (r: bool)
    ensures
        r == quotes_fit(s@),
{
    let v = chars_of(s);
    let mut double: usize = 0;
    let mut single: usize = 0;
    let mut i: usize = 0;
    while i < v.len()
        invariant
            i <= v@.len(),
            v@ == s@,
            quotes_fit(v@.take(i as int)),
            double == run_at_end(v@.take(i as int), '"'),
            single == run_at_end(v@.take(i as int), '\''),
            double <= 255,
            single <= 255,
        decreases v@.len() - i,
    {
        let c = v[i];
        assert(v@.take(i + 1).drop_last() =~= v@.take(i as int));
        assert(v@.take(i + 1).last() == c);
        double = if c == '"' {
            double + 1
        } else {
            0
        };
        single = if c == '\'' {
            single + 1
        } else {
            0
        };
        if double > 255 || single > 255 {
            proof {
                lemma_quotes_prefix(v@, i + 1);
            }
            return false;
        }
        i += 1;
    }
    assert(v@.take(v@.len() as int) =~= v@);
    true
}

proof fn lemma_quotes_prefix(s: Seq<char>, n: int)
    requires
        0 <= n <= s.len(),
        !quotes_fit(s.take(n)),
    ensures
        !quotes_fit(s),
    decreases s.len(),
{
    if n < s.len() {
        assert(s.drop_last().take(n) =~= s.take(n));
        lemma_quotes_prefix(s.drop_last(), n);
    } else {
        assert(s.take(n) =~= s);
    }
}

proof fn lemma_run_behind(p: Seq<char>, s: Seq<char>, q: char)
    requires
        p.len() > 0,
        p.last() != q,
    ensures
        run_at_end(p + s, q) == run_at_end(s, q),
    decreases s.len(),
{
    if s.len() == 0 {
        assert(p + s =~= p);
    } else {
        assert((p + s).last() == s.last());
        assert((p + s).drop_last() =~= p + s.drop_last());
        lemma_run_behind(p, s.drop_last(), q);
    }
}

proof fn lemma_path_fits(file: Seq<char>)
    requires
        quotes_fit(file),
    ensures
        quotes_fit("models/"@ + file),
    decreases file.len(),
{
    let p = "models/"@;
    reveal_strlit("models/");
    if file.len() == 0 {
        assert(p + file =~= p);
        lemma_plain_fits(p);
    } else {
        assert((p + file).drop_last() =~= p + file.drop_last());
        lemma_path_fits(file.drop_last());
        lemma_run_behind(p, file, '"');
        lemma_run_behind(p, file, '\'');
    }
}

proof fn lemma_plain_fits(s: Seq<char>)
    requires
        forall|i: int| 0 <= i < s.len() ==> s[i] != '"' && s[i] != '\'',
    ensures
        quotes_fit(s),
    decreases s.len(),
{
    if s.len() > 0 {
        lemma_plain_fits(s.drop_last());
    }
}

/// Whether nothing stands under a key at the top of a document.
pub open spec fn is_free(c: DocModel, key: Seq<char>) -> bool {
    &&& !c.tables.contains(key)
    &&& forall|p: Seq<Seq<char>>| #[trigger]
        c.values.dom().contains(p) ==> !(seq![key]).is_prefix_of(p)
}

/// Assignment of `toml_edit::value` to `doc[key]`: the string stands under the key
/// at the top, in place of all that was there, and the rest stays.
#[verifier::external_body]
fn doc_set(d: &mut toml_edit::DocumentMut, key: &str, text: &str)
    requires
        quotes_fit(text@),
    ensures
        doc_clean(*old(d)) ==> doc_clean(*final(d)),
        doc_values(*final(d)) == with_text(doc_values(*old(d)), seq![key@], text@),
        doc_tables(*final(d)) == doc_tables(*old(d)).remove(key@),
        doc_source(*final(d)) == doc_source(*old(d)),
        doc_edits(*final(d)) == doc_edits(*old(d)).push(
            Edit::Text { keys: seq![key@], text: text@ },
        ),
{
    d[key] = toml_edit::value(text);
}

/// `Table::get` on the document, then `Item::as_table_like`: whether the key at the
/// top stands for a table, in whichever way it is written.
#[verifier::external_body]
fn doc_has_table(d: &toml_edit::DocumentMut, key: &str) -> (r: bool)
    ensures
        r == doc_tables(*d).contains(key@),
{
    d.get(key).and_then(|t| t.as_table_like()).is_some()
}

/// Assignment of `toml_edit::table` to `doc[key]`: an empty table stands under the
/// key at the top, in place of all that was there, and the rest stays. A key that
/// was taken keeps the comment above it, which is then written inside the header.
#[verifier::external_body]
fn doc_add_table(d: &mut toml_edit::DocumentMut, key: &str)
    ensures
        doc_clean(*old(d)) && is_free(contents(*old(d)), key@) ==> doc_clean(*final(d)),
        doc_values(*final(d)) == without(doc_values(*old(d)), seq![key@]),
        doc_tables(*final(d)) == doc_tables(*old(d)).insert(key@),
        doc_source(*final(d)) == doc_source(*old(d)),
        doc_edits(*final(d)) == doc_edits(*old(d)).push(Edit::Table { key: key@ }),
{
    d[key] = toml_edit::table();
}

/// Assignment of `toml_edit::value` to `doc[table][key]` where `table` stands for a
/// table, an inline one among them: the string stands under the key in the table, in place of all that was
/// there, and the rest stays.
#[verifier::external_body]
fn doc_set_in(d: &mut toml_edit::DocumentMut, table: &str, key: &str, text: &str)
    requires
        doc_tables(*old(d)).contains(table@),
        quotes_fit(text@),
    ensures
        doc_clean(*old(d)) ==> doc_clean(*final(d)),
        doc_values(*final(d)) == with_text(doc_values(*old(d)), seq![table@, key@], text@),
        doc_tables(*final(d)) == doc_tables(*old(d)),
        doc_source(*final(d)) == doc_source(*old(d)),
        doc_edits(*final(d)) == doc_edits(*old(d)).push(
            Edit::Text { keys: seq![table@, key@], text: text@ },
        ),
{
    d[table][key] = toml_edit::value(text);
}

/// `Display` of a `DocumentMut`: what is written depends on the text that was read and
/// on the assignments since. The text of a clean document reads back as what the
/// document holds.
#[verifier::external_body]
fn doc_render(d: &toml_edit::DocumentMut) -> (r: String)
    ensures
        r@ == doc_written(doc_source(*d), doc_edits(*d)),
        doc_clean(*d) ==> toml_document(r@) == Some(contents(*d)),
{
    d.to_string()
}

/// The keys that lead to the path of the model in a role.
pub open spec fn model_keys(m: EntryModel) -> Seq<Seq<char>> {
    if m.asr() {
        model::asr_keys()
    } else {
        model::translator_keys()
    }
}

/// The path under which a model is put to use, relative to the directory of the
/// configuration.
pub open spec fn model_path_of(m: EntryModel) -> Seq<char> {
    "models/"@ + m.file
}

/// A document that points to a model. For a translator a section is made where
/// there is none; other settings then take their defaults.
pub open spec fn applied(c: DocModel, m: EntryModel) -> DocModel {
    if m.asr() {
        DocModel {
            values: with_text(c.values, model_keys(m), model_path_of(m)),
            tables: c.tables.remove("model_path"@),
        }
    } else {
        let kept = if c.tables.contains("translator"@) {
            c.values
        } else {
            without(c.values, seq!["translator"@])
        };
        DocModel {
            values: with_text(kept, model_keys(m), model_path_of(m)),
            tables: c.tables.insert("translator"@),
        }
    }
}

/// The assignments that point a document at a model.
pub open spec fn edits_for(c: DocModel, m: EntryModel) -> Seq<Edit> {
    let path = Edit::Text { keys: model_keys(m), text: model_path_of(m) };
    if m.asr() || c.tables.contains("translator"@) {
        seq![path]
    } else {
        seq![Edit::Table { key: "translator"@ }, path]
    }
}

/// Whether the section of the translator is there, or can be made without replacing
/// anything.
pub open spec fn section_ready(c: DocModel) -> bool {
    c.tables.contains("translator"@) || is_free(c, "translator"@)
}

/// Points a document at a model: the path at the top for speech recognition, the one
/// in the section of the translator for translation.
pub fn apply_active(doc: &mut toml_edit::DocumentMut, m: &ModelEntry)
    requires
        quotes_fit(m@.file),
    ensures
        contents(*final(doc)) == applied(contents(*old(doc)), m@),
        doc_source(*final(doc)) == doc_source(*old(doc)),
        doc_edits(*final(doc)) == doc_edits(*old(doc)) + edits_for(contents(*old(doc)), m@),
        doc_clean(*old(doc)) && (m@.asr() || section_ready(contents(*old(doc)))) ==> doc_clean(
            *final(doc),
        ),
{
    let mut rel = "models/".to_owned();
    rel.append(m.file.as_str());
    proof {
        lemma_path_fits(m@.file);
    }
    if m.is_asr() {
        doc_set(doc, "model_path", rel.as_str());
    } else {
        if !doc_has_table(doc, "translator") {
            doc_add_table(doc, "translator");
        } else {
            assert(doc_tables(*doc) =~= doc_tables(*doc).insert("translator"@));
        }
        doc_set_in(doc, "translator", "model_path", rel.as_str());
    }
}

/// A document that points to several models, one after the other.
pub open spec fn applied_all(c: DocModel, models: Seq<EntryModel>) -> DocModel
    decreases models.len(),
{
    if models.len() == 0 {
        c
    } else {
        applied(applied_all(c, models.drop_last()), models.last())
    }
}

/// The assignments that point a document at several models, one after the other.
pub open spec fn edits_for_all(c: DocModel, models: Seq<EntryModel>) -> Seq<Edit>
    decreases models.len(),
{
    if models.len() == 0 {
        Seq::empty()
    } else {
        edits_for_all(c, models.drop_last()) + edits_for(
            applied_all(c, models.drop_last()),
            models.last(),
        )
    }
}

/// A configuration that is no TOML.
pub struct BadConfig {
    pub cause: toml_edit::TomlError,
}

/// Whether these models can be put to use without replacing a section of the
/// translator that is no table.
pub open spec fn replaces_nothing(c: DocModel, models: Seq<EntryModel>) -> bool {
    section_ready(c) || forall|i: int| 0 <= i < models.len() ==> (#[trigger] models[i]).asr()
}

proof fn lemma_section_stays_ready(c: DocModel, m: EntryModel)
    requires
        section_ready(c),
    ensures
        section_ready(applied(c, m)),
{
    if m.asr() && !c.tables.contains("translator"@) {
        reveal_strlit("model_path");
        reveal_strlit("translator");
        let after = applied(c, m);
        assert("model_path"@[0] != "translator"@[0]);
        let k = seq!["translator"@];
        assert forall|p: Seq<Seq<char>>| #[trigger]
            after.values.dom().contains(p) implies !k.is_prefix_of(p) by {
            if p == model_keys(m) {
                assert(p[0] == "model_path"@);
                assert(k.is_prefix_of(p) ==> k[0] == p[0]);
            } else {
                assert(c.values.dom().contains(p));
            }
        }
    } else if m.asr() {
        reveal_strlit("model_path");
        reveal_strlit("translator");
        assert("model_path"@[0] != "translator"@[0]);
    }
}

/// Points the text of a configuration at these models. The new text is what toml_edit
/// writes after the assignments that this takes, and no others. It reads back as the
/// configuration that points to the models, unless a `translator` that is no table is
/// replaced.
pub fn activate(config: &str, models: &Vec<ModelEntry>) -> (r: Result<String, BadConfig>)
    requires
        forall|i: int| 0 <= i < models@.len() ==> quotes_fit((#[trigger] models@[i])@.file),
    ensures
        match r {
            Ok(t) => {
                &&& toml_document(config@) is Some
                &&& t@ == doc_written(
                    config@,
                    edits_for_all(toml_document(config@)->0, model::entries(models@)),
                )
                &&& replaces_nothing(toml_document(config@)->0, model::entries(models@))
                    ==> toml_document(t@) == Some(
                    applied_all(toml_document(config@)->0, model::entries(models@)),
                )
            },
            Err(_) => toml_document(config@) is None,
        },
{
    let mut doc = match doc_parse(config) {
        Ok(d) => d,
        Err(cause) => return Err(BadConfig { cause }),
    };
    let ghost all = model::entries(models@);
    let ghost first = contents(doc);
    let mut i: usize = 0;
    while i < models.len()
        invariant
            i <= models@.len(),
            all == model::entries(models@),
            contents(doc) == applied_all(first, all.take(i as int)),
            doc_source(doc) == config@,
            doc_edits(doc) == edits_for_all(first, all.take(i as int)),
            section_ready(first) ==> section_ready(contents(doc)),
            replaces_nothing(first, all) ==> doc_clean(doc),
            forall|k: int| 0 <= k < models@.len() ==> quotes_fit((#[trigger] models@[k])@.file),
        decreases models@.len() - i,
    {
        assert(all.take(i + 1).drop_last() =~= all.take(i as int));
        assert(all.take(i + 1).last() == models@[i as int]@);
        proof {
            assert(all[i as int] == models@[i as int]@);
            if section_ready(first) {
                lemma_section_stays_ready(contents(doc), models@[i as int]@);
            }
        }
        apply_active(&mut doc, &models[i]);
        i += 1;
    }
    assert(all.take(models@.len() as int) =~= all);
    Ok(doc_render(&doc))
}

/// The string under these keys, if there is one.
pub open spec fn text_at(values: Values, keys: Seq<Seq<char>>) -> Option<Seq<char>> {
    if values.dom().contains(keys) {
        match values[keys] {
            TomlValue::Text(s) => Some(s),
            TomlValue::Other(_) => None,
        }
    } else {
        None
    }
}

/// The string under these keys of what a text reads as.
pub open spec fn text_in(doc: Option<DocModel>, keys: Seq<Seq<char>>) -> Option<Seq<char>> {
    match doc {
        Some(c) => text_at(c.values, keys),
        None => None,
    }
}

/// A document that was pointed at a model holds its path, and that path names its
/// file: the model is then the active one in its role. (A file in a directory of its
/// own would be known by its last part only.)
pub proof fn applied_model_is_active(c: DocModel, m: EntryModel)
    requires
        !m.file.contains('/'),
    ensures
        text_at(applied(c, m).values, model_keys(m)) == Some(model_path_of(m)),
        model::active_for(
            m,
            model::active_base(text_at(applied(c, m).values, model::asr_keys())),
            model::active_base(text_at(applied(c, m).values, model::translator_keys())),
        ),
{
    lemma_base_behind(m.file);
}

/// A text that reads as a configuration pointed at a model is one in which that model
/// is found active.
pub proof fn activated_text_names_its_model(text: Seq<char>, c: DocModel, m: EntryModel)
    requires
        toml_document(text) == Some(applied(c, m)),
        !m.file.contains('/'),
    ensures
        model::active_for(
            m,
            model::active_base(text_in(toml_document(text), model::asr_keys())),
            model::active_base(text_in(toml_document(text), model::translator_keys())),
        ),
{
    applied_model_is_active(c, m);
}

proof fn lemma_base_behind(file: Seq<char>)
    requires
        !file.contains('/'),
    ensures
        model::base_of("models/"@ + file) == file,
    decreases file.len(),
{
    let path = "models/"@ + file;
    reveal_strlit("models/");
    if file.len() == 0 {
        assert(path =~= "models/"@);
        assert(path.last() == '/');
        assert(model::base_of(path) =~= file);
    } else {
        assert(path.last() == file.last());
        assert(file.contains(file.last()));
        assert(path.drop_last() =~= "models/"@ + file.drop_last());
        assert forall|c: char| file.drop_last().contains(c) implies file.contains(c) by {
            let i = choose|i: int| 0 <= i < file.len() - 1 && file.drop_last()[i] == c;
            assert(file[i] == c);
        }
        lemma_base_behind(file.drop_last());
        assert(file.drop_last().push(file.last()) =~= file);
    }
}

/// Pointing a document at a model changes nothing else: every value that stands
/// elsewhere than at the model's path stays as it was, those beside it in the section
/// among them. Only a `translator` that is no table makes room for the section.
pub proof fn the_rest_stays(c: DocModel, m: EntryModel, keys: Seq<Seq<char>>)
    requires
        !model_keys(m).is_prefix_of(keys),
        m.asr() || c.tables.contains("translator"@) || !(seq!["translator"@]).is_prefix_of(keys),
    ensures
        applied(c, m).values.dom().contains(keys) == c.values.dom().contains(keys),
        c.values.dom().contains(keys) ==> applied(c, m).values[keys] == c.values[keys],
{
    assert(model_keys(m).is_prefix_of(model_keys(m)));
}

/// Pointing a document at the same model once more changes nothing.
pub proof fn applying_again_changes_nothing(c: DocModel, m: EntryModel)
    ensures
        applied(applied(c, m), m) == applied(c, m),
{
    let once = applied(c, m);
    let twice = applied(once, m);
    assert(twice.values =~= once.values);
    assert(twice.tables =~= once.tables);
}

/// The two roles do not get in each other's way: the order in which a document is
/// pointed at a model for speech recognition and at a translator does not matter.
pub proof fn roles_are_independent(c: DocModel, asr: EntryModel, translator: EntryModel)
    requires
        asr.asr(),
        !translator.asr(),
    ensures
        applied(applied(c, asr), translator) == applied(applied(c, translator), asr),
        text_at(applied(applied(c, asr), translator).values, model_keys(asr)) == Some(
            model_path_of(asr),
        ),
{
    reveal_strlit("model_path");
    reveal_strlit("translator");
    let k1 = seq!["model_path"@];
    let k2 = seq!["translator"@, "model_path"@];
    let k3 = seq!["translator"@];
    assert("model_path"@[0] != "translator"@[0]);
    assert(k1[0] != k2[0] && k1[0] != k3[0]);
    assert(!k2.is_prefix_of(k1) && !k3.is_prefix_of(k1) && !k1.is_prefix_of(k2));
    let a = applied(applied(c, asr), translator);
    let b = applied(applied(c, translator), asr);
    assert forall|p: Seq<Seq<char>>| k1.is_prefix_of(p) implies !k2.is_prefix_of(p)
        && !k3.is_prefix_of(p) by {
        assert(p[0] == k1[0]);
    }
    assert(a.values =~= b.values);
    assert(a.tables =~= b.tables);
}

/// Where the path of a model goes: for speech recognition under `model_path` at the
/// top, for any other model under `model_path` of the `translator` section, which is
/// then there. It is the file in the directory `models`.
pub proof fn where_a_model_path_goes(c: DocModel, m: EntryModel)
    ensures
        m.role == "asr"@ ==> text_at(applied(c, m).values, seq!["model_path"@]) == Some(
            "models/"@ + m.file,
        ),
        m.role != "asr"@ ==> text_at(applied(c, m).values, seq!["translator"@, "model_path"@])
            == Some("models/"@ + m.file) && applied(c, m).tables.contains("translator"@),
{
}

/// The assignments that point a document at a model: one of its path, in front of
/// which a missing section of the translator is made.
pub proof fn assignments_for_a_model(c: DocModel, m: EntryModel)
    ensures
        m.role == "asr"@ ==> edits_for(c, m) == seq![
            Edit::Text { keys: seq!["model_path"@], text: "models/"@ + m.file },
        ],
        m.role != "asr"@ && c.tables.contains("translator"@) ==> edits_for(c, m) == seq![
            Edit::Text { keys: seq!["translator"@, "model_path"@], text: "models/"@ + m.file },
        ],
        m.role != "asr"@ && !c.tables.contains("translator"@) ==> edits_for(c, m) == seq![
            Edit::Table { key: "translator"@ },
            Edit::Text { keys: seq!["translator"@, "model_path"@], text: "models/"@ + m.file },
        ],
{
}

/// Models are put to use one after the other: a document that was pointed at some of
/// them is pointed at the rest in the same way.
pub proof fn models_are_applied_in_order(
    c: DocModel,
    a: Seq<EntryModel>,
    b: Seq<EntryModel>,
    m: EntryModel,
)
    ensures
        applied_all(c, a + b) == applied_all(applied_all(c, a), b),
        edits_for_all(c, a + b) == edits_for_all(c, a) + edits_for_all(applied_all(c, a), b),
        applied_all(c, seq![m]) == applied(c, m),
        edits_for_all(c, seq![m]) == edits_for(c, m),
    decreases b.len(),
{
    let one = seq![m];
    assert(one.drop_last() =~= Seq::<EntryModel>::empty());
    assert(applied_all(c, one.drop_last()) == c);
    assert(edits_for_all(c, one.drop_last()) =~= Seq::<Edit>::empty());
    assert(edits_for_all(c, one) =~= edits_for(c, m));
    if b.len() == 0 {
        assert(a + b =~= a);
        assert(edits_for_all(c, a) + edits_for_all(applied_all(c, a), b) =~= edits_for_all(c, a));
    } else {
        models_are_applied_in_order(c, a, b.drop_last(), m);
        assert((a + b).drop_last() =~= a + b.drop_last());
        assert(edits_for_all(c, a + b) =~= edits_for_all(c, a) + edits_for_all(
            applied_all(c, a),
            b,
        ));
    }
}

/// Of the models that a document is pointed at, the last one of a role is the active
/// one of that role, whatever comes for the other role; it is then listed as active
/// where it is installed.
pub proof fn last_model_of_a_role_is_active(
    c: DocModel,
    models: Seq<EntryModel>,
    i: int,
    catalog: Seq<EntryModel>,
    installed: Seq<bool>,
    k: int,
)
    requires
        0 <= i < models.len(),
        forall|j: int|
            i < j < models.len() ==> (#[trigger] models[j]).asr() != models[i].asr(),
        !models[i].file.contains('/'),
        installed.len() == catalog.len(),
        0 <= k < catalog.len(),
        catalog[k] == models[i],
        models[i].role == "asr"@ || models[i].role == "translator"@,
    ensures
        ({
            let after = applied_all(c, models);
            let asr = model::active_base(text_at(after.values, model::asr_keys()));
            let translator = model::active_base(text_at(after.values, model::translator_keys()));
            &&& model::active_for(models[i], asr, translator)
            &&& text::occurs(
                model::list_text(catalog, installed, asr, translator),
                model::list_row(models[i], installed[k], true),
            )
        }),
{
    lemma_last_path_stays(c, models, i);
    lemma_base_behind(models[i].file);
    let after = applied_all(c, models);
    let asr = model::active_base(text_at(after.values, model::asr_keys()));
    let translator = model::active_base(text_at(after.values, model::translator_keys()));
    model::list_shows_every_model(catalog, installed, asr, translator, k);
}

proof fn lemma_last_path_stays(c: DocModel, models: Seq<EntryModel>, i: int)
    requires
        0 <= i < models.len(),
        forall|j: int|
            i < j < models.len() ==> (#[trigger] models[j]).asr() != models[i].asr(),
    ensures
        text_at(applied_all(c, models).values, model_keys(models[i])) == Some(
            model_path_of(models[i]),
        ),
        !models[i].asr() ==> applied_all(c, models).tables.contains("translator"@),
    decreases models.len(),
{
    let n = models.len() - 1;
    let before = models.drop_last();
    if i < n {
        assert(before[i] == models[i]);
        assert forall|j: int| i < j < before.len() implies (#[trigger] before[j]).asr()
            != before[i].asr() by {
            assert(before[j] == models[j]);
        }
        lemma_last_path_stays(c, before, i);
        let m = models[n];
        assert(m.asr() != models[i].asr());
        reveal_strlit("model_path");
        reveal_strlit("translator");
        assert("model_path"@[0] != "translator"@[0]);
        let keys = model_keys(models[i]);
        let mine = model_keys(m);
        assert(mine[0] != keys[0]);
        assert(!mine.is_prefix_of(keys));
        let section = seq!["translator"@];
        if section.is_prefix_of(keys) {
            assert(keys[0] == section[0]);
        }
        the_rest_stays(applied_all(c, before), m, keys);
    }
}

/// What can be written as a string of a document: a text in which neither quotation
/// mark stands 256 times in a row.
pub proof fn what_fits_a_document(s: Seq<char>)
    ensures
        quotes_fit(s) <==> {
            &&& forall|i: int| !(#[trigger] row_of(s, i, '"', 256))
            &&& forall|i: int| !(#[trigger] row_of(s, i, '\'', 256))
        },
    decreases s.len(),
{
    if s.len() > 0 {
        what_fits_a_document(s.drop_last());
        lemma_rows_end(s, '"');
        lemma_rows_end(s, '\'');
    }
}

/// A row stands in a text where it stood before the last character, or where it ends
/// with that character.
proof fn lemma_rows_end(s: Seq<char>, q: char)
    requires
        s.len() > 0,
    ensures
        (forall|i: int| !(#[trigger] row_of(s, i, q, 256))) <==> {
            &&& forall|i: int| !(#[trigger] row_of(s.drop_last(), i, q, 256))
            &&& run_at_end(s, q) <= 255
        },
{
    let before = s.drop_last();
    lemma_run_at_end(s, q);
    if forall|i: int| !(#[trigger] row_of(s, i, q, 256)) {
        assert forall|i: int| !(#[trigger] row_of(before, i, q, 256)) by {
            assert(!row_of(s, i, q, 256));
            if row_of(before, i, q, 256) {
                assert forall|k: int| i <= k < i + 256 implies #[trigger] s[k] == q by {
                    assert(before[k] == q);
                }
            }
        }
        if run_at_end(s, q) > 255 {
            assert(row_of(s, s.len() - 256, q, 256));
        }
    } else {
        let i = choose|i: int| #[trigger] row_of(s, i, q, 256);
        if i + 256 < s.len() {
            assert forall|k: int| i <= k < i + 256 implies #[trigger] before[k] == q by {
                assert(s[k] == q);
            }
            assert(row_of(before, i, q, 256));
        } else if run_at_end(s, q) <= 255 {
            let k = s.len() - run_at_end(s, q) - 1;
            assert(i <= k < i + 256);
            assert(s[k] == q);
        }
    }
}

/// Whether a character stands `n` times in a row from a position on.
pub open spec fn row_of(s: Seq<char>, i: int, q: char, n: int) -> bool {
    0 <= i <= s.len() - n && forall|k: int| i <= k < i + n ==> #[trigger] s[k] == q
}

proof fn lemma_run_at_end(s: Seq<char>, q: char)
    ensures
        run_at_end(s, q) <= s.len(),
        forall|k: int| s.len() - run_at_end(s, q) <= k < s.len() ==> #[trigger] s[k] == q,
        run_at_end(s, q) < s.len() ==> s[s.len() - run_at_end(s, q) - 1] != q,
    decreases s.len(),
{
    if s.len() > 0 && s.last() == q {
        let before = s.drop_last();
        lemma_run_at_end(before, q);
        assert forall|k: int| s.len() - run_at_end(s, q) <= k < s.len() implies #[trigger] s[k]
            == q by {
            if k < before.len() {
                assert(before[k] == q);
            }
        }
    }
}

} // verus!
