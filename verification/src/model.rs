//! Local models: which ones there are, and which ones the configuration uses.
//!
//! Models are the only heavy dependency. A catalog names those that are known; the
//! commands work on the global configuration and on the directory of models beside
//! it.
use crate::config_doc;
use crate::presets::{self, PresetModel, PresetTable};
use crate::text::{self, chars_of, join, pad_left, pad_right, position, same, string_of};
use vstd::prelude::*;
use vstd::string::*;

verus! {

/// A model of the catalog.
pub struct ModelEntry {
    pub name: String,
    /// "asr" (speech recognition) or "translator".
    pub role: String,
    pub file: String,
    pub url: String,
    pub size: String,
    pub note: String,
}

/// The contents of a [`ModelEntry`].
pub struct EntryModel {
    pub name: Seq<char>,
    pub role: Seq<char>,
    pub file: Seq<char>,
    pub url: Seq<char>,
    pub size: Seq<char>,
    pub note: Seq<char>,
}

impl View for ModelEntry {
    type V = EntryModel;

    open spec fn view(&self) -> EntryModel {
        EntryModel {
            name: self.name@,
            role: self.role@,
            file: self.file@,
            url: self.url@,
            size: self.size@,
            note: self.note@,
        }
    }
}

impl Clone for ModelEntry {
    fn clone(&self) -> (r: Self)
        ensures
            r@ == self@,
    {
        ModelEntry {
            name: self.name.clone(),
            role: self.role.clone(),
            file: self.file.clone(),
            url: self.url.clone(),
            size: self.size.clone(),
            note: self.note.clone(),
        }
    }
}

impl EntryModel {
    /// Whether the model recognises speech.
    pub open spec fn asr(self) -> bool {
        self.role == "asr"@
    }
}

impl ModelEntry {
    /// Whether the model recognises speech.
    pub fn is_asr(&self) -> (r: bool)
        ensures
            r == self@.asr(),
    {
        same(self.role.as_str(), "asr")
    }
}

/// The catalog of models, and the presets that bundle some of them.
pub struct Catalog {
    pub model: Vec<ModelEntry>,
    pub preset: PresetTable,
}

/// The contents of each model of a list.
pub open spec fn entries(v: Seq<ModelEntry>) -> Seq<EntryModel> {
    Seq::new(v.len(), |i: int| v[i]@)
}

impl Catalog {
    /// The models.
    pub open spec fn models(&self) -> Seq<EntryModel> {
        entries(self.model@)
    }

    /// The presets are in order.
    pub open spec fn wf(&self) -> bool {
        self.preset.wf()
    }
}

/// What can go wrong with a model command.
pub enum ModelError {
    NoHome,
    MissingName,
    UnknownModel(String),
    MissingPreset { known: String },
    UnknownPreset { name: String, known: String },
    PresetModelUnknown(String),
    NotDownloaded(String),
    NoConfig(String),
    UnknownCommand(String),
    DownloadFailed { name: String, status: String },
}

/// What is said of an error.
pub open spec fn error_text(e: ModelError) -> Seq<char> {
    match e {
        ModelError::NoHome => "cannot locate home directory"@,
        ModelError::MissingName => "missing model name (see `kotoma model list`)"@,
        ModelError::UnknownModel(n) => "unknown model '"@ + n@ + "' (see `kotoma model list`)"@,
        ModelError::MissingPreset { known } => "missing preset name ("@ + known@ + " | both)"@,
        ModelError::UnknownPreset { name, known } => "unknown preset '"@ + name@ + "' (expected: "@
            + known@ + " | both)"@,
        ModelError::PresetModelUnknown(n) => "preset references unknown model '"@ + n@ + "'"@,
        ModelError::NotDownloaded(n) => "'"@ + n@
            + "' is not downloaded yet — run `kotoma model pull "@ + n@ + "` first"@,
        ModelError::NoConfig(p) => "no config at "@ + p@
            + " — run `kotoma model preset standard|high` to create one"@,
        ModelError::UnknownCommand(c) => "unknown subcommand 'model "@ + c@
            + "' (expected: list | pull | use | preset | rm)"@,
        ModelError::DownloadFailed { name, status } => "download failed for "@ + name@
            + " (curl exited with "@ + status@ + ")"@,
    }
}

fn cat3(a: &str, b: &str, c: &str) -> (r: String)
    ensures
        r@ == a@ + b@ + c@,
{
    let mut r = a.to_owned();
    r.append(b);
    r.append(c);
    r
}

impl ModelError {
    /// What is said of the error.
    pub fn message(&self) -> (r: String)
        ensures
            r@ == error_text(*self),
    {
        match self {
            ModelError::NoHome => "cannot locate home directory".to_owned(),
            ModelError::MissingName => "missing model name (see `kotoma model list`)".to_owned(),
            ModelError::UnknownModel(n) => cat3(
                "unknown model '",
                n.as_str(),
                "' (see `kotoma model list`)",
            ),
            ModelError::MissingPreset { known } => cat3(
                "missing preset name (",
                known.as_str(),
                " | both)",
            ),
            ModelError::UnknownPreset { name, known } => {
                let mut r = cat3("unknown preset '", name.as_str(), "' (expected: ");
                r.append(known.as_str());
                r.append(" | both)");
                r
            },
            ModelError::PresetModelUnknown(n) => cat3(
                "preset references unknown model '",
                n.as_str(),
                "'",
            ),
            ModelError::NotDownloaded(n) => {
                let mut r = cat3(
                    "'",
                    n.as_str(),
                    "' is not downloaded yet — run `kotoma model pull ",
                );
                r.append(n.as_str());
                r.append("` first");
                r
            },
            ModelError::NoConfig(p) => cat3(
                "no config at ",
                p.as_str(),
                " — run `kotoma model preset standard|high` to create one",
            ),
            ModelError::UnknownCommand(c) => cat3(
                "unknown subcommand 'model ",
                c.as_str(),
                "' (expected: list | pull | use | preset | rm)",
            ),
            ModelError::DownloadFailed { name, status } => {
                let mut r = cat3("download failed for ", name.as_str(), " (curl exited with ");
                r.append(status.as_str());
                r.append(")");
                r
            },
        }
    }
}

/// A model command with its argument.
pub enum ModelCommand {
    List,
    Pull(Option<String>),
    Use(Option<String>),
    Rm(Option<String>),
    Preset(Option<String>),
    Help,
}

/// The second argument, if there is one.
pub open spec fn second(args: Seq<Seq<char>>) -> Option<Seq<char>> {
    if args.len() > 1 {
        Some(args[1])
    } else {
        None
    }
}

/// Reads a model command. Without arguments it is `list`.
pub fn parse_command(args: &Vec<String>) -> (r: Result<ModelCommand, ModelError>)
    ensures
        ({
            let a = text::strs(args@);
            match r {
                Ok(ModelCommand::List) => a.len() == 0 || a[0] == "list"@,
                Ok(ModelCommand::Pull(n)) => a.len() > 0 && a[0] == "pull"@ && text::opt_str(n) == second(
                    a,
                ),
                Ok(ModelCommand::Use(n)) => a.len() > 0 && a[0] == "use"@ && text::opt_str(n) == second(
                    a,
                ),
                Ok(ModelCommand::Rm(n)) => a.len() > 0 && a[0] == "rm"@ && text::opt_str(n) == second(a),
                Ok(ModelCommand::Preset(n)) => a.len() > 0 && a[0] == "preset"@ && text::opt_str(n)
                    == second(a),
                Ok(ModelCommand::Help) => a.len() > 0 && (a[0] == "-h"@ || a[0] == "--help"@),
                Err(ModelError::UnknownCommand(c)) => a.len() > 0 && c@ == a[0] && a[0] != "list"@
                    && a[0] != "pull"@ && a[0] != "use"@ && a[0] != "rm"@ && a[0] != "preset"@
                    && a[0] != "-h"@ && a[0] != "--help"@,
                Err(_) => false,
            }
        }),
{
    if args.len() == 0 {
        return Ok(ModelCommand::List);
    }
    let arg = if args.len() > 1 {
        Some(args[1].clone())
    } else {
        None
    };
    let c = args[0].as_str();
    assert(text::strs(args@)[0] == c@);
    if same(c, "list") {
        Ok(ModelCommand::List)
    } else if same(c, "pull") {
        Ok(ModelCommand::Pull(arg))
    } else if same(c, "use") {
        Ok(ModelCommand::Use(arg))
    } else if same(c, "rm") {
        Ok(ModelCommand::Rm(arg))
    } else if same(c, "preset") {
        Ok(ModelCommand::Preset(arg))
    } else if same(c, "-h") || same(c, "--help") {
        Ok(ModelCommand::Help)
    } else {
        Err(ModelError::UnknownCommand(c.to_owned()))
    }
}

/// The help on model commands.
pub const USAGE: &'static str =
    "usage: kotoma model <command>\n\n  \
list                 Show catalog models and which are installed/active\n  \
pull <name>          Download a model into ~/.config/kotoma/models/\n  \
use <name>           Point the config at an installed model\n  \
preset <name|both>   Install a tier preset (standard | high | both) and select it\n  \
rm <name>            Delete a downloaded model file";

/// The directory of the configuration, below the home directory.
pub const CONFIG_DIR: &'static str = ".config/kotoma";

/// The directory of the models, below that of the configuration.
pub const MODELS_DIR: &'static str = "models";

/// The file of the configuration, below its directory.
pub const CONFIG_FILE: &'static str = "kotoma.toml";

/// The position of the first model with a name.
pub open spec fn model_index(models: Seq<EntryModel>, name: Seq<char>) -> Option<int>
    decreases models.len(),
{
    if models.len() == 0 {
        None
    } else {
        match model_index(models.drop_last(), name) {
            Some(i) => Some(i),
            None => if models.last().name == name {
                Some(models.len() - 1)
            } else {
                None
            },
        }
    }
}

/// What `model_index` finds: a model with the name, the first of them, or nothing
/// where no model has it.
pub proof fn model_index_is_first(models: Seq<EntryModel>, name: Seq<char>)
    ensures
        match model_index(models, name) {
            Some(i) => {
                &&& 0 <= i < models.len()
                &&& models[i].name == name
                &&& forall|j: int| 0 <= j < i ==> (#[trigger] models[j]).name != name
            },
            None => forall|j: int| 0 <= j < models.len() ==> (#[trigger] models[j]).name != name,
        },
    decreases models.len(),
{
    if models.len() > 0 {
        let before = models.drop_last();
        model_index_is_first(before, name);
        assert forall|j: int| 0 <= j < before.len() implies before[j] == models[j] by {}
        match model_index(models, name) {
            Some(i) => {
                assert forall|j: int| 0 <= j < i implies (#[trigger] models[j]).name != name by {
                    assert(before[j].name != name);
                }
            },
            None => {
                assert forall|j: int| 0 <= j < models.len() implies (#[trigger] models[j]).name
                    != name by {
                    if j < before.len() {
                        assert(before[j].name != name);
                    }
                }
            },
        }
    }
}

proof fn lemma_model_index_extends(models: Seq<EntryModel>, name: Seq<char>, n: int)
    requires
        0 <= n <= models.len(),
        model_index(models.take(n), name) is Some,
    ensures
        model_index(models, name) == model_index(models.take(n), name),
    decreases models.len(),
{
    if n < models.len() {
        assert(models.drop_last().take(n) =~= models.take(n));
        lemma_model_index_extends(models.drop_last(), name, n);
    } else {
        assert(models.take(n) =~= models);
    }
}

fn lookup<'a>(models: &'a Vec<ModelEntry>, name: &str) -> (r: Option<&'a ModelEntry>)
    ensures
        match r {
            Some(m) => model_index(entries(models@), name@) matches Some(i) && 0 <= i
                < models@.len() && *m == models@[i],
            None => model_index(entries(models@), name@) is None,
        },
{
    let ghost all = entries(models@);
    let mut i: usize = 0;
    while i < models.len()
        invariant
            i <= models@.len(),
            all == entries(models@),
            model_index(all.take(i as int), name@) is None,
        decreases models@.len() - i,
    {
        assert(all.take(i + 1).drop_last() =~= all.take(i as int));
        assert(all.take(i + 1).last() == models@[i as int]@);
        if same(models[i].name.as_str(), name) {
            proof {
                lemma_model_index_extends(all, name@, i + 1);
            }
            return Some(&models[i]);
        }
        i += 1;
    }
    assert(all.take(models@.len() as int) =~= all);
    None
}

/// The first model of the catalog with a name.
pub fn find<'a>(catalog: &'a Catalog, name: Option<&str>) -> (r: Result<&'a ModelEntry, ModelError>)
    ensures
        match r {
            Ok(m) => name matches Some(n) && (model_index(catalog.models(), n@) matches Some(i) && 0
                <= i < catalog.models().len() && m@ == catalog.models()[i]),
            Err(ModelError::MissingName) => name is None,
            Err(ModelError::UnknownModel(u)) => name matches Some(n) && u@ == n@ && model_index(
                catalog.models(),
                n@,
            ) is None,
            Err(_) => false,
        },
{
    match name {
        None => Err(ModelError::MissingName),
        Some(n) => match lookup(&catalog.model, n) {
            Some(m) => Ok(m),
            None => Err(ModelError::UnknownModel(n.to_owned())),
        },
    }
}

/// The keys that lead to the path of the model for speech recognition.
pub open spec fn asr_keys() -> Seq<Seq<char>> {
    seq!["model_path"@]
}

/// The keys that lead to the path of the model for translation.
pub open spec fn translator_keys() -> Seq<Seq<char>> {
    seq!["translator"@, "model_path"@]
}

/// The string that the toml crate finds in a document under a key, at the top or in
/// a table: nothing where the text is no TOML or there is no string.
pub uninterp spec fn toml_string(
    text: Seq<char>,
    table: Option<Seq<char>>,
    key: Seq<char>,
) -> Option<Seq<char>>;

/// The keys that lead to a key, at the top or in a table.
pub open spec fn keys_to(table: Option<Seq<char>>, key: Seq<char>) -> Seq<Seq<char>> {
    match table {
        Some(t) => seq![t, key],
        None => seq![key],
    }
}

/// Whether a text is sure to hold no key that begins with a dollar sign, not even an
/// escaped one. The toml crate has a private key of that kind for dates.
pub open spec fn without_dollars(text: Seq<char>) -> bool {
    !text.contains('$') && !text.contains('\\')
}

/// `str::parse` into a `Value` of toml, then `Value::get` and `Value::as_str`: what
/// comes back depends on the text and the keys alone. The crate reads with the parser
/// of toml_edit, so it finds what a document of toml_edit holds, in a text without
/// the private key.
#[verifier::external_body]
fn toml_string_at(text: &str, table: Option<&str>, key: &str) -> (r: Option<String>)
    ensures
        text::opt_str(r) == toml_string(text@, text::opt_slice(table), key@),
        without_dollars(text@) ==> text::opt_str(r) == config_doc::text_in(
            config_doc::toml_document(text@),
            keys_to(text::opt_slice(table), key@),
        ),
{
    let value = text.parse::<toml::Value>().ok()?;
    let holder = match table {
        Some(t) => value.get(t)?,
        None => &value,
    };
    holder.get(key)?.as_str().map(str::to_string)
}

/// The part of a path behind its last separator.
pub open spec fn base_of(path: Seq<char>) -> Seq<char>
    decreases path.len(),
{
    if path.len() == 0 || path.last() == '/' {
        Seq::empty()
    } else {
        base_of(path.drop_last()).push(path.last())
    }
}

/// The part of a path behind its last separator.
pub fn base_name(path: &str) -> (r: String)
    ensures
        r@ == base_of(path@),
{
    let v = chars_of(path);
    let n: usize = v.len();
    let mut i: usize = n;
    assert(v@.take(n as int) =~= v@);
    assert(v@.subrange(n as int, n as int) =~= Seq::<char>::empty());
    assert(base_of(v@) =~= base_of(v@) + Seq::<char>::empty());
    while i > 0 && v[i - 1] != '/'
        invariant
            i <= n,
            n == v@.len(),
            base_of(v@) == base_of(v@.take(i as int)) + v@.subrange(i as int, n as int),
        decreases i,
    {
        assert(v@.take(i as int).drop_last() =~= v@.take(i - 1));
        assert(base_of(v@.take(i as int)) == base_of(v@.take(i - 1)).push(v@[i - 1]));
        assert(base_of(v@.take(i - 1)).push(v@[i - 1]) + v@.subrange(i as int, n as int) =~= base_of(
            v@.take(i - 1),
        ) + v@.subrange(i - 1, n as int));
        i -= 1;
    }
    assert(base_of(v@.take(i as int)) =~= Seq::<char>::empty());
    let r = string_of(&v, i, n);
    assert(r@ =~= base_of(v@));
    r
}

/// The file behind a path that the configuration holds.
pub open spec fn active_base(entry: Option<Seq<char>>) -> Option<Seq<char>> {
    match entry {
        Some(p) => Some(base_of(p)),
        None => None,
    }
}

fn base_of_entry(entry: Option<String>) -> (r: Option<String>)
    ensures
        text::opt_str(r) == active_base(text::opt_str(entry)),
{
    match entry {
        Some(p) => Some(base_name(p.as_str())),
        None => None,
    }
}

/// The files of the active models, from the paths that the configuration holds.
pub fn active_of_paths(asr: Option<String>, translator: Option<String>) -> (r: (
    Option<String>,
    Option<String>,
))
    ensures
        text::opt_str(r.0) == active_base(text::opt_str(asr)),
        text::opt_str(r.1) == active_base(text::opt_str(translator)),
{
    (base_of_entry(asr), base_of_entry(translator))
}

/// The files of the active models, of the text of a configuration: for speech
/// recognition, and for translation.
pub fn active_files(config: &str) -> (r: (Option<String>, Option<String>))
    ensures
        text::opt_str(r.0) == active_base(toml_string(config@, None, "model_path"@)),
        text::opt_str(r.1) == active_base(toml_string(config@, Some("translator"@), "model_path"@)),
        without_dollars(config@) ==> {
            let doc = config_doc::toml_document(config@);
            &&& text::opt_str(r.0) == active_base(config_doc::text_in(doc, asr_keys()))
            &&& text::opt_str(r.1) == active_base(config_doc::text_in(doc, translator_keys()))
        },
{
    active_of_paths(
        toml_string_at(config, None, "model_path"),
        toml_string_at(config, Some("translator"), "model_path"),
    )
}

/// The file that is active in the role of a model.
pub open spec fn active_for(
    m: EntryModel,
    asr: Option<Seq<char>>,
    translator: Option<Seq<char>>,
) -> bool {
    if m.asr() {
        asr == Some(m.file)
    } else {
        translator == Some(m.file)
    }
}

/// Whether a model is the active one in its role.
pub fn is_active(m: &ModelEntry, asr: Option<&str>, translator: Option<&str>) -> (r: bool)
    ensures
        r == active_for(m@, text::opt_slice(asr), text::opt_slice(translator)),
{
    let active = if m.is_asr() {
        asr
    } else {
        translator
    };
    match active {
        Some(f) => same(f, m.file.as_str()),
        None => false,
    }
}

/// How a model is marked in the list.
pub open spec fn tag_text(installed: bool, active: bool) -> Seq<char> {
    if installed && active {
        "● active   "@
    } else if installed {
        "✓ installed"@
    } else {
        "  available"@
    }
}

/// The line of a model in the list.
pub open spec fn list_row(m: EntryModel, installed: bool, active: bool) -> Seq<char> {
    "  "@ + tag_text(installed, active) + "  "@ + (m.name + text::spaces(text::gap(m.name.len(), 24))) + " "@ + (
    text::spaces(text::gap(m.size.len(), 8)) + m.size) + "  "@ + m.note + "\n"@
}

/// The lines of the models with a role.
pub open spec fn list_rows(
    models: Seq<EntryModel>,
    installed: Seq<bool>,
    role: Seq<char>,
    active: Option<Seq<char>>,
) -> Seq<char>
    decreases models.len(),
{
    if models.len() == 0 {
        Seq::empty()
    } else {
        let m = models.last();
        let before = list_rows(models.drop_last(), installed, role, active);
        if m.role == role {
            before + list_row(m, installed[models.len() - 1], active == Some(m.file))
        } else {
            before
        }
    }
}

/// The list of models.
pub open spec fn list_text(
    models: Seq<EntryModel>,
    installed: Seq<bool>,
    asr: Option<Seq<char>>,
    translator: Option<Seq<char>>,
) -> Seq<char> {
    "ASR (transcription):\n"@ + list_rows(models, installed, "asr"@, asr) + "Translation:\n"@
        + list_rows(models, installed, "translator"@, translator)
        + "\n  pull: kotoma model pull <name>   ·   use: kotoma model use <name>\n"@
}

fn push_row(out: &mut String, m: &ModelEntry, installed: bool, active: bool)
    ensures
        final(out)@ == old(out)@ + list_row(m@, installed, active),
{
    let ghost before = out@;
    out.append("  ");
    out.append(
        if installed && active {
            "● active   "
        } else if installed {
            "✓ installed"
        } else {
            "  available"
        },
    );
    out.append("  ");
    out.append(pad_right(m.name.as_str(), 24).as_str());
    out.append(" ");
    out.append(pad_left(m.size.as_str(), 8).as_str());
    out.append("  ");
    out.append(m.note.as_str());
    out.append("\n");
    assert(out@ =~= before + list_row(m@, installed, active));
}

fn push_rows(
    out: &mut String,
    models: &Vec<ModelEntry>,
    installed: &Vec<bool>,
    role: &str,
    active: Option<&str>,
)
    requires
        installed@.len() == models@.len(),
    ensures
        final(out)@ == old(out)@ + list_rows(
            entries(models@),
            installed@,
            role@,
            text::opt_slice(active),
        ),
{
    let ghost all = entries(models@);
    let ghost first = out@;
    let mut i: usize = 0;
    assert(first + list_rows(all.take(0), installed@, role@, text::opt_slice(active)) =~= first);
    while i < models.len()
        invariant
            i <= models@.len(),
            installed@.len() == models@.len(),
            all == entries(models@),
            out@ == first + list_rows(
                all.take(i as int),
                installed@,
                role@,
                text::opt_slice(active),
            ),
        decreases models@.len() - i,
    {
        let m = &models[i];
        assert(all.take(i + 1).drop_last() =~= all.take(i as int));
        assert(all.take(i + 1).last() == m@);
        if same(m.role.as_str(), role) {
            let is_active = match active {
                Some(f) => same(f, m.file.as_str()),
                None => false,
            };
            push_row(out, m, installed[i], is_active);
            assert(out@ =~= first + list_rows(
                all.take(i + 1),
                installed@,
                role@,
                text::opt_slice(active),
            ));
        }
        i += 1;
    }
    assert(all.take(models@.len() as int) =~= all);
}

/// The list of models, with those that are installed and those that are active
/// marked. `installed` says for each model whether its file is there.
pub fn list(
    catalog: &Catalog,
    installed: &Vec<bool>,
    asr: Option<&str>,
    translator: Option<&str>,
) -> (r: String)
    requires
        installed@.len() == catalog.model@.len(),
    ensures
        r@ == list_text(
            catalog.models(),
            installed@,
            text::opt_slice(asr),
            text::opt_slice(translator),
        ),
{
    let mut out = "ASR (transcription):\n".to_owned();
    push_rows(&mut out, &catalog.model, installed, "asr", asr);
    out.append("Translation:\n");
    push_rows(&mut out, &catalog.model, installed, "translator", translator);
    out.append("\n  pull: kotoma model pull <name>   ·   use: kotoma model use <name>\n");
    out
}

/// Whether a model is to be downloaded: its file is missing or empty. `len` is the
/// length of the file where it can be told.
pub fn needs_download(present: bool, len: Option<u64>) -> (r: bool)
    ensures
        r == !(present && (len matches Some(n) && n > 0)),
{
    !(present && match len {
        Some(n) => n > 0,
        None => false,
    })
}

/// The arguments with which curl downloads a model.
pub fn curl_args(m: &ModelEntry, dest: &str) -> (r: Vec<String>)
    ensures
        text::strs(r@) == seq!["-fL"@, "--progress-bar"@, "-o"@, dest@, m@.url],
{
    let mut r: Vec<String> = Vec::new();
    r.push("-fL".to_owned());
    r.push("--progress-bar".to_owned());
    r.push("-o".to_owned());
    r.push(dest.to_owned());
    r.push(m.url.clone());
    assert(text::strs(r@) =~= seq!["-fL"@, "--progress-bar"@, "-o"@, dest@, m@.url]);
    r
}

/// What the commands report.
pub enum Report {
    Present { name: String },
    Downloading { name: String, size: String },
    Installed { path: String },
    Pulled { name: String },
    Activated { asr: bool, name: String, config: String },
    PresetActive { config: String, preset: String },
    SeveralPresets,
    NotInstalled { name: String },
    Removed { path: String },
    WasActive,
}

/// The text of a report.
pub open spec fn report_text(r: Report) -> Seq<char> {
    match r {
        Report::Present { name } => "already present: "@ + name@,
        Report::Downloading { name, size } => "==> Downloading "@ + name@ + " ("@ + size@ + ")"@,
        Report::Installed { path } => "installed → "@ + path@,
        Report::Pulled { name } => "activate with: kotoma model use "@ + name@,
        Report::Activated { asr, name, config } => (if asr {
            "ASR"@
        } else {
            "translation"@
        }) + " model set to "@ + name@ + " in "@ + config@,
        Report::PresetActive { config, preset } => "\nconfig at "@ + config@ + " now uses the '"@
            + preset@ + "' preset"@,
        Report::SeveralPresets =>
            "both presets downloaded — switch anytime with `kotoma model use <name>`"@,
        Report::NotInstalled { name } => "not installed: "@ + name@,
        Report::Removed { path } => "removed "@ + path@,
        Report::WasActive =>
            "warning: this model was active in the config — pick another with `kotoma model use <name>`"@,
    }
}

fn cat2(a: &str, b: &str) -> (r: String)
    ensures
        r@ == a@ + b@,
{
    let mut r = a.to_owned();
    r.append(b);
    r
}

impl Report {
    /// The text of the report.
    pub fn text(&self) -> (r: String)
        ensures
            r@ == report_text(*self),
    {
        match self {
            Report::Present { name } => cat2("already present: ", name.as_str()),
            Report::Downloading { name, size } => {
                let mut r = cat3("==> Downloading ", name.as_str(), " (");
                r.append(size.as_str());
                r.append(")");
                r
            },
            Report::Installed { path } => cat2("installed → ", path.as_str()),
            Report::Pulled { name } => cat2("activate with: kotoma model use ", name.as_str()),
            Report::Activated { asr, name, config } => {
                let role = if *asr {
                    "ASR"
                } else {
                    "translation"
                };
                let mut r = cat3(role, " model set to ", name.as_str());
                r.append(" in ");
                r.append(config.as_str());
                r
            },
            Report::PresetActive { config, preset } => {
                let mut r = cat3("\nconfig at ", config.as_str(), " now uses the '");
                r.append(preset.as_str());
                r.append("' preset");
                r
            },
            Report::SeveralPresets => {
                "both presets downloaded — switch anytime with `kotoma model use <name>`".to_owned()
            },
            Report::NotInstalled { name } => cat2("not installed: ", name.as_str()),
            Report::Removed { path } => cat2("removed ", path.as_str()),
            Report::WasActive => {
                "warning: this model was active in the config — pick another with `kotoma model use <name>`".to_owned()
            },
        }
    }
}

/// What a removal does.
#[derive(Clone, Copy, Debug, PartialEq, Eq, Structural)]
pub enum Removal {
    /// There is no file.
    NotInstalled,
    /// The file is removed; `was_active` where the configuration still points to it.
    Remove { was_active: bool },
}

/// Decides what a removal does, by the files that are active before it.
pub fn plan_removal(
    m: &ModelEntry,
    installed: bool,
    asr: Option<&str>,
    translator: Option<&str>,
) -> (r: Removal)
    ensures
        r == if installed {
            Removal::Remove {
                was_active: active_for(m@, text::opt_slice(asr), text::opt_slice(translator)),
            }
        } else {
            Removal::NotInstalled
        },
{
    if installed {
        Removal::Remove { was_active: is_active(m, asr, translator) }
    } else {
        Removal::NotInstalled
    }
}

/// Whether a model can be put to use: it must be there, and so must the
/// configuration, whose path is given for the message.
pub fn check_use(
    m: &ModelEntry,
    installed: bool,
    config_exists: bool,
    config: &str,
) -> (r: Result<(), ModelError>)
    ensures
        match r {
            Ok(()) => installed && config_exists,
            Err(ModelError::NotDownloaded(n)) => !installed && n@ == m@.name,
            Err(ModelError::NoConfig(p)) => installed && !config_exists && p@ == config@,
            Err(_) => false,
        },
{
    if !installed {
        Err(ModelError::NotDownloaded(m.name.clone()))
    } else if !config_exists {
        Err(ModelError::NoConfig(config.to_owned()))
    } else {
        Ok(())
    }
}

/// The presets that a name stands for: `both` and `all` stand for every preset.
pub open spec fn selected(presets: Seq<PresetModel>, name: Seq<char>) -> Option<Seq<Seq<char>>> {
    if every_preset(name) {
        Some(presets::preset_names(presets))
    } else if presets::preset_models(presets, name) is Some {
        Some(seq![name])
    } else {
        None
    }
}

/// Whether a name stands for every preset.
pub open spec fn every_preset(name: Seq<char>) -> bool {
    name == "both"@ || name == "all"@
}

/// The models of presets, one preset after the other.
pub open spec fn models_of(presets: Seq<PresetModel>, names: Seq<Seq<char>>) -> Seq<Seq<char>>
    decreases names.len(),
{
    if names.len() == 0 {
        Seq::empty()
    } else {
        models_of(presets, names.drop_last()) + match presets::preset_models(presets, names.last()) {
            Some(m) => m,
            None => Seq::empty(),
        }
    }
}

/// The catalog's models for a list of names, up to the first name that it does not
/// know, and that name.
pub open spec fn resolved(models: Seq<EntryModel>, names: Seq<Seq<char>>) -> (
    Seq<EntryModel>,
    Option<Seq<char>>,
)
    decreases names.len(),
{
    if names.len() == 0 {
        (Seq::empty(), None)
    } else {
        let (found, unknown) = resolved(models, names.drop_last());
        match unknown {
            Some(u) => (found, Some(u)),
            None => match model_index(models, names.last()) {
                Some(i) => (found.push(models[i]), None),
                None => (found, Some(names.last())),
            },
        }
    }
}

/// The preset that is put to use: the strongest one (`high`) where it is among those
/// installed, otherwise the last of them.
pub open spec fn preferred(names: Seq<Seq<char>>) -> Seq<char> {
    if names.contains("high"@) {
        "high"@
    } else {
        names.last()
    }
}

/// The preset that is put to use, with its models.
pub struct Activation {
    pub preset: String,
    pub models: Vec<ModelEntry>,
    /// Several presets were installed.
    pub several: bool,
}

/// What the installation of presets does: the downloads in their order, and then
/// either the activation or the error that ends it.
pub struct PresetPlan {
    pub downloads: Vec<ModelEntry>,
    pub outcome: Result<Activation, ModelError>,
}

fn resolve(models: &Vec<ModelEntry>, names: &Vec<String>) -> (r: (Vec<ModelEntry>, Option<String>))
    ensures
        (entries(r.0@), text::opt_str(r.1)) == resolved(entries(models@), text::strs(names@)),
{
    let ghost all = text::strs(names@);
    let mut found: Vec<ModelEntry> = Vec::new();
    let mut i: usize = 0;
    assert(entries(found@) =~= Seq::<EntryModel>::empty());
    while i < names.len()
        invariant
            i <= names@.len(),
            all == text::strs(names@),
            resolved(entries(models@), all.take(i as int)) == (
                entries(found@),
                None::<Seq<char>>,
            ),
        decreases names@.len() - i,
    {
        let ghost before = entries(found@);
        assert(all.take(i + 1).drop_last() =~= all.take(i as int));
        assert(all.take(i + 1).last() == names@[i as int]@);
        match lookup(models, names[i].as_str()) {
            Some(m) => {
                found.push(m.clone());
                assert(entries(found@) =~= before.push(m@));
            },
            None => {
                proof {
                    lemma_resolved_stops(entries(models@), all, i + 1);
                }
                return (found, Some(names[i].clone()));
            },
        }
        i += 1;
    }
    assert(all.take(names@.len() as int) =~= all);
    (found, None)
}

proof fn lemma_resolved_stops(models: Seq<EntryModel>, names: Seq<Seq<char>>, n: int)
    requires
        0 <= n <= names.len(),
        resolved(models, names.take(n)).1 is Some,
    ensures
        resolved(models, names) == resolved(models, names.take(n)),
    decreases names.len(),
{
    if n < names.len() {
        assert(names.drop_last().take(n) =~= names.take(n));
        lemma_resolved_stops(models, names.drop_last(), n);
    } else {
        assert(names.take(n) =~= names);
    }
}

fn collect_models(table: &PresetTable, names: &Vec<String>) -> (r: Vec<String>)
    requires
        table.wf(),
    ensures
        text::strs(r@) == models_of(table@, text::strs(names@)),
{
    let ghost all = text::strs(names@);
    let mut out: Vec<String> = Vec::new();
    let mut i: usize = 0;
    assert(text::strs(out@) =~= Seq::<Seq<char>>::empty());
    while i < names.len()
        invariant
            i <= names@.len(),
            all == text::strs(names@),
            table.wf(),
            text::strs(out@) == models_of(table@, all.take(i as int)),
        decreases names@.len() - i,
    {
        assert(all.take(i + 1).drop_last() =~= all.take(i as int));
        assert(all.take(i + 1).last() == names@[i as int]@);
        let ghost before = text::strs(out@);
        match table.get(names[i].as_str()) {
            Some(list) => {
                let mut list = list;
                let ghost more = text::strs(list@);
                let ghost had = out@;
                out.append(&mut list);
                assert(text::strs(out@) =~= before + more);
            },
            None => {
                assert(before + Seq::<Seq<char>>::empty() =~= before);
            },
        }
        i += 1;
    }
    assert(all.take(names@.len() as int) =~= all);
    out
}

/// Plans the installation of a preset, or of all of them. `both` of a catalog
/// without presets stands for nothing that could be put to use.
pub fn plan_preset(catalog: &Catalog, name: Option<&str>) -> (r: Result<PresetPlan, ModelError>)
    requires
        catalog.wf(),
        name matches Some(n) ==> every_preset(n@) ==> catalog.preset@.len() > 0,
    ensures
        ({
            let known = text::joined(presets::preset_names(catalog.preset@), " | "@);
            match r {
                Ok(plan) => {
                    &&& name is Some
                    &&& selected(catalog.preset@, name->0@) is Some
                    &&& planned(plan, catalog.models(), catalog.preset@, selected(
                        catalog.preset@,
                        name->0@,
                    )->0)
                },
                Err(ModelError::MissingPreset { known: k }) => name is None && k@ == known,
                Err(ModelError::UnknownPreset { name: n, known: k }) => name is Some && n@
                    == name->0@ && k@ == known && selected(catalog.preset@, name->0@) is None,
                Err(_) => false,
            }
        }),
{
    let all = catalog.preset.names();
    let name = match name {
        Some(n) => n,
        None => return Err(ModelError::MissingPreset { known: join(&all, " | ") }),
    };
    let chosen = if same(name, "both") || same(name, "all") {
        all
    } else if catalog.preset.get(name).is_some() {
        let mut one: Vec<String> = Vec::new();
        one.push(name.to_owned());
        assert(text::strs(one@) =~= seq![name@]);
        one
    } else {
        return Err(
            ModelError::UnknownPreset { name: name.to_owned(), known: join(&all, " | ") },
        );
    };
    let ghost names = text::strs(chosen@);
    assert(names.len() > 0);
    let wanted = collect_models(&catalog.preset, &chosen);
    let (downloads, unknown) = resolve(&catalog.model, &wanted);
    let outcome = match unknown {
        Some(u) => Err(ModelError::PresetModelUnknown(u)),
        None => {
            let high = position(&chosen, "high").is_some();
            proof {
                text::lemma_first_index(names, "high"@);
                if high {
                    let i = text::first_index(names, "high"@)->0;
                    assert(names[i] == "high"@);
                }
            }
            let preset = if high {
                "high".to_owned()
            } else {
                assert(names.last() == chosen@.last()@);
                chosen[chosen.len() - 1].clone()
            };
            let mut one: Vec<String> = Vec::new();
            one.push(preset.clone());
            let list = collect_models(&catalog.preset, &one);
            assert(text::strs(one@) =~= seq![preferred(names)]);
            let (models, _) = resolve(&catalog.model, &list);
            Ok(Activation { preset, models, several: chosen.len() > 1 })
        },
    };
    Ok(PresetPlan { downloads, outcome })
}

/// Whether a plan is the one for these presets.
pub open spec fn planned(
    plan: PresetPlan,
    models: Seq<EntryModel>,
    presets: Seq<PresetModel>,
    names: Seq<Seq<char>>,
) -> bool {
    let (found, unknown) = resolved(models, models_of(presets, names));
    &&& entries(plan.downloads@) == found
    &&& match plan.outcome {
        Ok(a) => {
            &&& unknown is None
            &&& a.preset@ == preferred(names)
            &&& entries(a.models@) == resolved(models, models_of(presets, seq![preferred(names)])).0
            &&& a.several == (names.len() > 1)
        },
        Err(ModelError::PresetModelUnknown(u)) => unknown == Some(u@),
        Err(_) => false,
    }
}

proof fn lemma_resolved_items(models: Seq<EntryModel>, names: Seq<Seq<char>>)
    requires
        resolved(models, names).1 is None,
    ensures
        resolved(models, names).0.len() == names.len(),
        forall|i: int|
            0 <= i < names.len() ==> {
                &&& model_index(models, #[trigger] names[i]) is Some
                &&& resolved(models, names).0[i] == models[model_index(models, names[i])->0]
            },
    decreases names.len(),
{
    if names.len() > 0 {
        let before = names.drop_last();
        lemma_resolved_items(models, before);
        assert forall|i: int| 0 <= i < names.len() implies {
            &&& model_index(models, #[trigger] names[i]) is Some
            &&& resolved(models, names).0[i] == models[model_index(models, names[i])->0]
        } by {
            if i < before.len() {
                assert(before[i] == names[i]);
            }
        }
    }
}

proof fn lemma_all_known(models: Seq<EntryModel>, names: Seq<Seq<char>>)
    requires
        forall|i: int| 0 <= i < names.len() ==> model_index(models, #[trigger] names[i]) is Some,
    ensures
        resolved(models, names).1 is None,
    decreases names.len(),
{
    if names.len() > 0 {
        let before = names.drop_last();
        assert forall|i: int| 0 <= i < before.len() implies model_index(
            models,
            #[trigger] before[i],
        ) is Some by {
            assert(before[i] == names[i]);
        }
        lemma_all_known(models, before);
    }
}

proof fn lemma_models_of_has(presets: Seq<PresetModel>, names: Seq<Seq<char>>, k: int, x: Seq<char>)
    requires
        0 <= k < names.len(),
        presets::preset_models(presets, names[k]) matches Some(list) && list.contains(x),
    ensures
        models_of(presets, names).contains(x),
    decreases names.len(),
{
    let before = models_of(presets, names.drop_last());
    let all = models_of(presets, names);
    if k < names.len() - 1 {
        lemma_models_of_has(presets, names.drop_last(), k, x);
        let i = choose|i: int| 0 <= i < before.len() && before[i] == x;
        assert(all[i] == x);
    } else {
        let list = presets::preset_models(presets, names[k])->0;
        let i = choose|i: int| 0 <= i < list.len() && list[i] == x;
        assert(all[before.len() + i] == x);
    }
}

/// Whatever is put to use after an installation was installed by it: each model of
/// the preferred preset is known, and is among the downloads.
pub proof fn activation_was_downloaded(
    models: Seq<EntryModel>,
    presets: Seq<PresetModel>,
    names: Seq<Seq<char>>,
)
    requires
        names.len() > 0,
        resolved(models, models_of(presets, names)).1 is None,
    ensures
        ({
            let downloads = resolved(models, models_of(presets, names)).0;
            let active = resolved(models, models_of(presets, seq![preferred(names)]));
            &&& active.1 is None
            &&& forall|i: int|
                0 <= i < active.0.len() ==> downloads.contains(#[trigger] active.0[i])
        }),
{
    let all = models_of(presets, names);
    let one = seq![preferred(names)];
    let own = models_of(presets, one);
    lemma_resolved_items(models, all);
    assert(models_of(presets, one.drop_last()) =~= Seq::<Seq<char>>::empty());
    assert(one.last() == preferred(names));
    let k = if names.contains("high"@) {
        choose|k: int| 0 <= k < names.len() && names[k] == "high"@
    } else {
        names.len() - 1
    };
    assert(names[k] == preferred(names));
    assert forall|i: int| 0 <= i < own.len() implies all.contains(#[trigger] own[i]) by {
        match presets::preset_models(presets, names[k]) {
            Some(list) => {
                assert(own =~= list);
                assert(list.contains(own[i]));
                lemma_models_of_has(presets, names, k, own[i]);
            },
            None => {
                assert(own =~= Seq::<Seq<char>>::empty());
            },
        }
    }
    assert forall|i: int| 0 <= i < own.len() implies model_index(models, #[trigger] own[i]) is Some by {
        assert(all.contains(own[i]));
        let j = choose|j: int| 0 <= j < all.len() && all[j] == own[i];
        assert(model_index(models, all[j]) is Some);
    }
    lemma_all_known(models, own);
    lemma_resolved_items(models, own);
    let active = resolved(models, own).0;
    let downloads = resolved(models, all).0;
    assert forall|i: int| 0 <= i < active.len() implies downloads.contains(#[trigger] active[i]) by {
        assert(all.contains(own[i]));
        let j = choose|j: int| 0 <= j < all.len() && all[j] == own[i];
        assert(model_index(models, all[j]) is Some);
        assert(downloads[j] == active[i]);
    }
}

/// Where several presets are installed and `high` is one of them, it is the one put
/// to use; a single preset is put to use itself.
pub proof fn what_is_preferred(names: Seq<Seq<char>>)
    requires
        names.len() > 0,
    ensures
        names.contains(preferred(names)),
        names.contains("high"@) ==> preferred(names) == "high"@,
        names.len() == 1 ==> preferred(names) == names[0],
{
    if !names.contains("high"@) {
        assert(names[names.len() - 1] == preferred(names));
    } else if names.len() == 1 {
        let k = choose|k: int| 0 <= k < names.len() && names[k] == "high"@;
        assert(k == 0);
    }
}

/// The lines of a role go model by model: those of two parts of the catalog follow
/// each other, a model of another role has none, and a model of the role has one. It
/// is marked active where it is installed and its file is the active one.
pub proof fn list_goes_model_by_model(
    a: Seq<EntryModel>,
    b: Seq<EntryModel>,
    has_a: Seq<bool>,
    has_b: Seq<bool>,
    role: Seq<char>,
    active: Option<Seq<char>>,
    m: EntryModel,
    installed: bool,
)
    requires
        has_a.len() == a.len(),
        has_b.len() == b.len(),
    ensures
        list_rows(a + b, has_a + has_b, role, active) == list_rows(a, has_a, role, active)
            + list_rows(b, has_b, role, active),
        m.role != role ==> list_rows(seq![m], seq![installed], role, active).len() == 0,
        m.role == role ==> list_rows(seq![m], seq![installed], role, active) == list_row(
            m,
            installed,
            active == Some(m.file),
        ),
    decreases b.len(),
{
    let one = seq![m];
    assert(one.drop_last() =~= Seq::<EntryModel>::empty());
    assert(list_rows(one.drop_last(), seq![installed], role, active) =~= Seq::<char>::empty());
    if m.role == role {
        assert(list_rows(one, seq![installed], role, active) =~= list_row(
            m,
            installed,
            active == Some(m.file),
        ));
    }
    if b.len() == 0 {
        assert(a + b =~= a);
        assert(has_a + has_b =~= has_a);
        assert(list_rows(a, has_a, role, active) + list_rows(b, has_b, role, active) =~= list_rows(
            a,
            has_a,
            role,
            active,
        ));
    } else {
        let has_short = has_b.drop_last();
        list_goes_model_by_model(
            a,
            b.drop_last(),
            has_a,
            has_short,
            role,
            active,
            m,
            installed,
        );
        assert((a + b).drop_last() =~= a + b.drop_last());
        assert((a + b).last() == b.last());
        lemma_more_flags(a + b.drop_last(), has_a + has_short, has_a + has_b, role, active);
        lemma_more_flags(b.drop_last(), has_short, has_b, role, active);
        assert((has_a + has_b)[(a + b).len() - 1] == has_b[b.len() - 1]);
        assert(list_rows(a + b, has_a + has_b, role, active) =~= list_rows(a, has_a, role, active)
            + list_rows(b, has_b, role, active));
    }
}

/// What is said of later models makes no difference to the lines of earlier ones.
proof fn lemma_more_flags(
    models: Seq<EntryModel>,
    few: Seq<bool>,
    many: Seq<bool>,
    role: Seq<char>,
    active: Option<Seq<char>>,
)
    requires
        models.len() <= few.len() <= many.len(),
        forall|i: int| 0 <= i < few.len() ==> few[i] == many[i],
    ensures
        list_rows(models, few, role, active) == list_rows(models, many, role, active),
    decreases models.len(),
{
    if models.len() > 0 {
        lemma_more_flags(models.drop_last(), few, many, role, active);
    }
}

/// Where the line of a model stands among those of its role.
proof fn lemma_row_is_listed(
    models: Seq<EntryModel>,
    installed: Seq<bool>,
    active: Option<Seq<char>>,
    i: int,
)
    requires
        installed.len() == models.len(),
        0 <= i < models.len(),
    ensures
        text::occurs(
            list_rows(models, installed, models[i].role, active),
            list_row(models[i], installed[i], active == Some(models[i].file)),
        ),
{
    let m = models[i];
    let role = m.role;
    let front = models.take(i);
    let rest = models.skip(i + 1);
    let has_front = installed.take(i);
    let has_rest = installed.skip(i + 1);
    let one = seq![m];
    let has = seq![installed[i]];
    list_goes_model_by_model(
        front,
        one,
        has_front,
        has,
        role,
        active,
        m,
        installed[i],
    );
    list_goes_model_by_model(
        front + one,
        rest,
        has_front + has,
        has_rest,
        role,
        active,
        m,
        installed[i],
    );
    assert(front + one + rest =~= models);
    assert(has_front + has + has_rest =~= installed);
    text::parts_are_found(
        list_rows(front, has_front, role, active),
        list_row(m, installed[i], active == Some(m.file)),
        list_rows(rest, has_rest, role, active),
    );
}

/// The list shows every model of either role in its section, marked by whether it is
/// installed and whether it is the active one in its role.
pub proof fn list_shows_every_model(
    models: Seq<EntryModel>,
    installed: Seq<bool>,
    asr: Option<Seq<char>>,
    translator: Option<Seq<char>>,
    i: int,
)
    requires
        installed.len() == models.len(),
        0 <= i < models.len(),
        models[i].role == "asr"@ || models[i].role == "translator"@,
    ensures
        ({
            let t = list_text(models, installed, asr, translator);
            let m = models[i];
            let row = list_row(m, installed[i], active_for(m, asr, translator));
            &&& text::occurs(t, row)
            &&& t == "ASR (transcription):\n"@ + list_rows(models, installed, "asr"@, asr)
                + "Translation:\n"@ + list_rows(models, installed, "translator"@, translator)
                + "\n  pull: kotoma model pull <name>   ·   use: kotoma model use <name>\n"@
            &&& exists|a: Seq<char>, b: Seq<char>|
                t == #[trigger] (a + "Translation:\n"@ + b) && if m.role == "asr"@ {
                    text::occurs(a, row) && text::begins(a, "ASR (transcription):\n"@)
                } else {
                    text::occurs(b, row)
                }
        }),
{
    reveal_strlit("asr");
    reveal_strlit("translator");
    assert("asr"@.len() != "translator"@.len());
    let t = list_text(models, installed, asr, translator);
    let m = models[i];
    let row = list_row(m, installed[i], active_for(m, asr, translator));
    let first = list_rows(models, installed, "asr"@, asr);
    let second = list_rows(models, installed, "translator"@, translator);
    let head = "ASR (transcription):\n"@;
    let mid = "Translation:\n"@;
    let foot = "\n  pull: kotoma model pull <name>   ·   use: kotoma model use <name>\n"@;
    let a = head + first;
    let b = second + foot;
    assert(t =~= a + mid + b);
    assert(a.take(head.len() as int) =~= head);
    if m.role == "asr"@ {
        lemma_row_is_listed(models, installed, asr, i);
        lemma_occurs_within(head, first, Seq::empty(), row);
        assert(head + first + Seq::<char>::empty() =~= a);
        lemma_occurs_within(head, first, mid + b, row);
        assert(head + first + (mid + b) =~= t);
    } else {
        lemma_row_is_listed(models, installed, translator, i);
        lemma_occurs_within(Seq::empty(), second, foot, row);
        assert(Seq::<char>::empty() + second + foot =~= b);
        lemma_occurs_within(a + mid, second, foot, row);
        assert(a + mid + second + foot =~= t);
    }
}

/// What stands in a part stands in the whole.
proof fn lemma_occurs_within(a: Seq<char>, b: Seq<char>, c: Seq<char>, part: Seq<char>)
    requires
        text::occurs(b, part),
    ensures
        text::occurs(a + b + c, part),
{
    let i = choose|i: int|
        0 <= i <= b.len() - part.len() && #[trigger] b.subrange(i, i + part.len()) == part;
    let at = a.len() + i;
    assert((a + b + c).subrange(at, at + part.len()) =~= b.subrange(i, i + part.len()));
}

/// The marks of the list, and where the parts of a line stand: the mark first, then
/// the name in 24 cells, the size at the right of 8, and the note up to the end.
pub proof fn list_rows_are_aligned(m: EntryModel, installed: bool, active: bool)
    ensures
        ({
            let r = list_row(m, installed, active);
            &&& installed && active ==> text::begins(r, "  ● active     "@)
            &&& installed && !active ==> text::begins(r, "  ✓ installed  "@)
            &&& !installed ==> text::begins(r, "    available  "@)
            &&& text::ends(r, "  "@ + m.note + "\n"@)
            &&& r.len() >= 15 + m.name.len()
            &&& r.subrange(15, 15 + m.name.len() as int) == m.name
            &&& text::ends(r, m.size + "  "@ + m.note + "\n"@)
            &&& m.name.len() <= 24 && m.size.len() <= 8 ==> r.len() == 51 + m.note.len()
        }),
{
    reveal_strlit("  ");
    reveal_strlit(" ");
    reveal_strlit("\n");
    reveal_strlit("● active   ");
    reveal_strlit("✓ installed");
    reveal_strlit("  available");
    reveal_strlit("  ● active     ");
    reveal_strlit("  ✓ installed  ");
    reveal_strlit("    available  ");
    let r = list_row(m, installed, active);
    let mark = if installed && active {
        "  ● active     "@
    } else if installed {
        "  ✓ installed  "@
    } else {
        "    available  "@
    };
    assert(r.take(15) =~= mark);
    let end = "  "@ + m.note + "\n"@;
    assert(r.skip(r.len() - end.len()) =~= end);
    let more = m.size + "  "@ + m.note + "\n"@;
    assert(r.skip(r.len() - more.len()) =~= more);
    assert(r.subrange(15, 15 + m.name.len() as int) =~= m.name);
}

/// Which model is active: one for speech recognition by the one file, any other one
/// by the other file.
pub proof fn active_by_role(
    m: EntryModel,
    asr: Option<Seq<char>>,
    translator: Option<Seq<char>>,
)
    ensures
        m.role == "asr"@ ==> active_for(m, asr, translator) == (asr == Some(m.file)),
        m.role != "asr"@ ==> active_for(m, asr, translator) == (translator == Some(m.file)),
{
}

/// The file of a path: the path is a directory, empty or up to a separator, and the
/// file behind it, which holds no separator.
pub proof fn base_is_behind_the_last_separator(path: Seq<char>)
    ensures
        ({
            let b = base_of(path);
            let dir = path.take(path.len() - b.len());
            &&& b.len() <= path.len()
            &&& path == dir + b
            &&& !b.contains('/')
            &&& dir.len() == 0 || dir.last() == '/'
        }),
        active_base(Some(path)) == Some(base_of(path)),
        active_base(None) is None,
    decreases path.len(),
{
    let b = base_of(path);
    if path.len() > 0 && path.last() != '/' {
        let short = path.drop_last();
        base_is_behind_the_last_separator(short);
        assert forall|i: int| 0 <= i < b.len() implies b[i] != '/' by {
            if i < b.len() - 1 {
                assert(base_of(short).contains(base_of(short)[i]));
            }
        }
        assert(path.take(path.len() - b.len()) =~= short.take(short.len() - base_of(short).len()));
        assert(path =~= short.push(path.last()));
        assert(path =~= path.take(path.len() - b.len()) + b);
    }
    let dir = path.take(path.len() - b.len());
    assert(path =~= dir + b);
}

/// The presets that a name stands for: `both` and `all` for every preset, the name of
/// a preset for that one, and any other name for none.
pub proof fn what_a_preset_name_stands_for(presets: Seq<PresetModel>, name: Seq<char>)
    ensures
        name == "both"@ || name == "all"@ ==> selected(presets, name) == Some(
            presets::preset_names(presets),
        ),
        name != "both"@ && name != "all"@ && presets::preset_names(presets).contains(name)
            ==> selected(presets, name) == Some(seq![name]),
        name != "both"@ && name != "all"@ && !presets::preset_names(presets).contains(name)
            ==> selected(presets, name) is None,
{
    presets::known_names(presets, name);
}

/// The models of presets go preset by preset.
pub proof fn models_go_preset_by_preset(
    presets: Seq<PresetModel>,
    a: Seq<Seq<char>>,
    b: Seq<Seq<char>>,
    name: Seq<char>,
)
    ensures
        models_of(presets, a + b) == models_of(presets, a) + models_of(presets, b),
        match presets::preset_models(presets, name) {
            Some(list) => models_of(presets, seq![name]) == list,
            None => models_of(presets, seq![name]).len() == 0,
        },
    decreases b.len(),
{
    let one = seq![name];
    assert(one.drop_last() =~= Seq::<Seq<char>>::empty());
    assert(models_of(presets, one.drop_last()) =~= Seq::<Seq<char>>::empty());
    if let Some(list) = presets::preset_models(presets, name) {
        assert(models_of(presets, one) =~= list);
    }
    if b.len() == 0 {
        assert(a + b =~= a);
        assert(models_of(presets, a) + models_of(presets, b) =~= models_of(presets, a));
    } else {
        models_go_preset_by_preset(presets, a, b.drop_last(), name);
        assert((a + b).drop_last() =~= a + b.drop_last());
        assert(models_of(presets, a + b) =~= models_of(presets, a) + models_of(presets, b));
    }
}

/// Names are looked up in order, up to the first one that the catalog does not know:
/// each name before it gives the first model that has it.
pub proof fn names_are_looked_up_in_order(models: Seq<EntryModel>, names: Seq<Seq<char>>)
    ensures
        ({
            let (found, unknown) = resolved(models, names);
            &&& found.len() <= names.len()
            &&& forall|i: int|
                0 <= i < found.len() ==> {
                    &&& models.contains(#[trigger] found[i])
                    &&& found[i].name == names[i]
                }
            &&& match unknown {
                None => found.len() == names.len(),
                Some(u) => {
                    &&& found.len() < names.len()
                    &&& u == names[found.len() as int]
                    &&& forall|j: int| 0 <= j < models.len() ==> (#[trigger] models[j]).name != u
                },
            }
        }),
    decreases names.len(),
{
    if names.len() > 0 {
        let before = names.drop_last();
        names_are_looked_up_in_order(models, before);
        model_index_is_first(models, names.last());
        let (found, unknown) = resolved(models, names);
        let (found_before, unknown_before) = resolved(models, before);
        assert forall|i: int| 0 <= i < found.len() implies {
            &&& models.contains(#[trigger] found[i])
            &&& found[i].name == names[i]
        } by {
            if i < found_before.len() {
                assert(found[i] == found_before[i]);
                assert(before[i] == names[i]);
            }
        }
    }
}

/// What the installation of presets comes to, where it succeeds: everything that the
/// chosen presets name is downloaded, in order; the strongest of them is put to use,
/// with all of its models.
pub proof fn plans_install_what_was_chosen(
    plan: PresetPlan,
    models: Seq<EntryModel>,
    presets: Seq<PresetModel>,
    names: Seq<Seq<char>>,
)
    requires
        names.len() > 0,
        planned(plan, models, presets, names),
        plan.outcome is Ok,
    ensures
        ({
            let wanted = models_of(presets, names);
            let a = plan.outcome->Ok_0;
            let own = models_of(presets, seq![a.preset@]);
            &&& plan.downloads@.len() == wanted.len()
            &&& forall|i: int|
                0 <= i < wanted.len() ==> (#[trigger] plan.downloads@[i])@.name == wanted[i]
                    && models.contains(plan.downloads@[i]@)
            &&& names.contains("high"@) ==> a.preset@ == "high"@
            &&& !names.contains("high"@) ==> a.preset@ == names[names.len() - 1]
            &&& a.models@.len() == own.len()
            &&& forall|i: int|
                0 <= i < own.len() ==> (#[trigger] a.models@[i])@.name == own[i]
                    && models.contains(a.models@[i]@)
            &&& a.several == (names.len() >= 2)
        }),
{
    let wanted = models_of(presets, names);
    let a = plan.outcome->Ok_0;
    let own = models_of(presets, seq![a.preset@]);
    names_are_looked_up_in_order(models, wanted);
    activation_was_downloaded(models, presets, names);
    names_are_looked_up_in_order(models, own);
    let found = entries(plan.downloads@);
    assert forall|i: int| 0 <= i < wanted.len() implies (#[trigger] plan.downloads@[i])@.name
        == wanted[i] && models.contains(plan.downloads@[i]@) by {
        assert(found[i] == plan.downloads@[i]@);
    }
    let used = entries(a.models@);
    assert forall|i: int| 0 <= i < own.len() implies (#[trigger] a.models@[i])@.name == own[i]
        && models.contains(a.models@[i]@) by {
        assert(used[i] == a.models@[i]@);
    }
}

/// Where an installation fails, it names the first model that the catalog lacks, and
/// what stands before it is downloaded.
pub proof fn failed_plans_name_the_gap(
    plan: PresetPlan,
    models: Seq<EntryModel>,
    presets: Seq<PresetModel>,
    names: Seq<Seq<char>>,
)
    requires
        planned(plan, models, presets, names),
        plan.outcome is Err,
    ensures
        plan.outcome->Err_0 matches ModelError::PresetModelUnknown(u) && {
            let n = plan.downloads@.len() as int;
            &&& n < models_of(presets, names).len()
            &&& u@ == models_of(presets, names)[n]
            &&& forall|j: int| 0 <= j < models.len() ==> (#[trigger] models[j]).name != u@
        },
{
    names_are_looked_up_in_order(models, models_of(presets, names));
    assert(entries(plan.downloads@).len() == plan.downloads@.len());
}

/// An error names what it is about.
pub proof fn errors_name_their_subject(name: String, known: String)
    ensures
        error_text(ModelError::NoHome) == "cannot locate home directory"@,
        error_text(ModelError::MissingName) == "missing model name (see `kotoma model list`)"@,
        text::occurs(error_text(ModelError::UnknownModel(name)), "unknown model '"@ + name@ + "'"@),
        text::occurs(
            error_text(ModelError::MissingPreset { known }),
            "missing preset name ("@ + known@ + " | both)"@,
        ),
        text::occurs(
            error_text(ModelError::UnknownPreset { name, known }),
            "unknown preset '"@ + name@ + "' (expected: "@ + known@ + " | both)"@,
        ),
        text::occurs(
            error_text(ModelError::PresetModelUnknown(name)),
            "unknown model '"@ + name@ + "'"@,
        ),
        text::occurs(
            error_text(ModelError::NotDownloaded(name)),
            "run `kotoma model pull "@ + name@ + "` first"@,
        ),
        text::occurs(error_text(ModelError::NoConfig(name)), "no config at "@ + name@ + " "@),
        text::occurs(
            error_text(ModelError::UnknownCommand(name)),
            "unknown subcommand 'model "@ + name@ + "'"@,
        ),
        text::occurs(
            error_text(ModelError::DownloadFailed { name, status: known }),
            "download failed for "@ + name@ + " (curl exited with "@ + known@ + ")"@,
        ),
{
    let n = name@;
    let k = known@;
    reveal_strlit("' (see `kotoma model list`)");
    reveal_strlit("'");
    reveal_strlit("preset references unknown model '");
    reveal_strlit("unknown model '");
    reveal_strlit("' is not downloaded yet — run `kotoma model pull ");
    reveal_strlit("run `kotoma model pull ");
    reveal_strlit(" — run `kotoma model preset standard|high` to create one");
    reveal_strlit(" ");
    reveal_strlit("' (expected: list | pull | use | preset | rm)");
    let a = "unknown model '"@ + n + "'"@;
    lemma_occurs_at(error_text(ModelError::UnknownModel(name)), a, 0);
    let b = error_text(ModelError::MissingPreset { known });
    lemma_occurs_at(b, b, 0);
    let c = error_text(ModelError::UnknownPreset { name, known });
    lemma_occurs_at(c, c, 0);
    lemma_occurs_at(error_text(ModelError::PresetModelUnknown(name)), a, 18);
    let d = "run `kotoma model pull "@ + n + "` first"@;
    let e = error_text(ModelError::NotDownloaded(name));
    lemma_occurs_at(e, d, e.len() - d.len());
    let f = "no config at "@ + n + " "@;
    lemma_occurs_at(error_text(ModelError::NoConfig(name)), f, 0);
    let g = "unknown subcommand 'model "@ + n + "'"@;
    lemma_occurs_at(error_text(ModelError::UnknownCommand(name)), g, 0);
    let h = error_text(ModelError::DownloadFailed { name, status: known });
    lemma_occurs_at(h, h, 0);
}

proof fn lemma_occurs_at(whole: Seq<char>, part: Seq<char>, at: int)
    requires
        0 <= at <= whole.len() - part.len(),
        forall|k: int| 0 <= k < part.len() ==> #[trigger] part[k] == whole[at + k],
    ensures
        text::occurs(whole, part),
{
    assert(whole.subrange(at, at + part.len()) =~= part);
}

/// A report names what it is about, and says of a model in which role it was put to
/// use.
pub proof fn reports_name_their_subject(a: String, b: String)
    ensures
        report_text(Report::Present { name: a }) == "already present: "@ + a@,
        report_text(Report::Downloading { name: a, size: b }) == "==> Downloading "@ + a@ + " ("@
            + b@ + ")"@,
        report_text(Report::Installed { path: a }) == "installed → "@ + a@,
        report_text(Report::Pulled { name: a }) == "activate with: kotoma model use "@ + a@,
        report_text(Report::Activated { asr: true, name: a, config: b }) == "ASR"@
            + " model set to "@ + a@ + " in "@ + b@,
        report_text(Report::Activated { asr: false, name: a, config: b }) == "translation"@
            + " model set to "@ + a@ + " in "@ + b@,
        text::occurs(
            report_text(Report::PresetActive { config: a, preset: b }),
            "config at "@ + a@ + " now uses the '"@ + b@ + "' preset"@,
        ),
        report_text(Report::NotInstalled { name: a }) == "not installed: "@ + a@,
        report_text(Report::Removed { path: a }) == "removed "@ + a@,
        text::begins(report_text(Report::SeveralPresets), "both presets downloaded"@),
        text::begins(report_text(Report::WasActive), "warning: this model was active"@),
{
    reveal_strlit("\nconfig at ");
    reveal_strlit("config at ");
    reveal_strlit("both presets downloaded — switch anytime with `kotoma model use <name>`");
    reveal_strlit("both presets downloaded");
    reveal_strlit("warning: this model was active in the config — pick another with `kotoma model use <name>`");
    reveal_strlit("warning: this model was active");
    let c = "config at "@ + a@ + " now uses the '"@ + b@ + "' preset"@;
    let r = report_text(Report::PresetActive { config: a, preset: b });
    assert(r.subrange(1, 1 + c.len() as int) =~= c);
    assert(report_text(Report::SeveralPresets).take(23) =~= "both presets downloaded"@);
    assert(report_text(Report::WasActive).take(30) =~= "warning: this model was active"@);
}

/// Where the configuration holds the paths of the models, and where its files are.
pub proof fn where_the_configuration_is()
    ensures
        asr_keys() == seq!["model_path"@],
        translator_keys() == seq!["translator"@, "model_path"@],
        CONFIG_DIR@ == ".config/kotoma"@,
        MODELS_DIR@ == "models"@,
        CONFIG_FILE@ == "kotoma.toml"@,
{
}

/// The catalog keeps its models in order, each with all that is known of it.
pub proof fn entries_keep_their_models(v: Seq<ModelEntry>)
    ensures
        entries(v).len() == v.len(),
        forall|i: int|
            0 <= i < v.len() ==> {
                let e = #[trigger] entries(v)[i];
                &&& e.name == v[i].name@
                &&& e.role == v[i].role@
                &&& e.file == v[i].file@
                &&& e.url == v[i].url@
                &&& e.size == v[i].size@
                &&& e.note == v[i].note@
            },
{
}

/// The argument of a command is the word behind it.
pub proof fn arguments_of_commands(args: Seq<Seq<char>>)
    ensures
        args.len() >= 2 ==> second(args) == Some(args[1]),
        args.len() < 2 ==> second(args) is None,
{
}

} // verus!
