//! A session: what it knows, and what each event makes of it.
use crate::audio::{self, list_devices_split};
use crate::msg::{self, DraftState, TranslatorStatus, UiMsg};
use crate::text::{self, position, same};
use crate::transcribe::{self, LineModel, TranscriptLine};
use crate::ui::{
    self, draw, CacheModel, LayoutModel, PaneSize, Screen, TranscriptLayout, UiState, MAX_WIDTH,
};
use vstd::prelude::*;
use vstd::string::*;

verus! {

/// The choice of audio sources.
pub struct DevicePicker {
    pub mic: Vec<String>,
    pub sys: Vec<String>,
    pub mic_sel: usize,
    pub sys_sel: usize,
    /// 0 = mic section, 1 = system-audio section.
    pub focus: u8,
}

/// The contents of a [`DevicePicker`].
#[verifier::ext_equal]
pub struct PickerModel {
    pub mic: Seq<Seq<char>>,
    pub sys: Seq<Seq<char>>,
    pub mic_sel: int,
    pub sys_sel: int,
    pub focus: int,
}

impl View for DevicePicker {
    type V = PickerModel;

    open spec fn view(&self) -> PickerModel {
        PickerModel {
            mic: text::strs(self.mic@),
            sys: text::strs(self.sys@),
            mic_sel: self.mic_sel as int,
            sys_sel: self.sys_sel as int,
            focus: self.focus as int,
        }
    }
}

impl PickerModel {
    /// Both selections are choices that there are, and one of the two sections has
    /// the focus.
    pub open spec fn wf(self) -> bool {
        &&& 0 <= self.mic_sel < self.mic.len()
        &&& 0 <= self.sys_sel < self.sys.len()
        &&& 0 <= self.focus <= 1
    }

    /// The picker with the focus on the other section.
    pub open spec fn switched(self) -> Self {
        PickerModel { focus: 1 - self.focus, ..self }
    }

    /// The picker with the choice above selected, where there is one.
    pub open spec fn moved_up(self) -> Self {
        if self.focus == 0 {
            PickerModel {
                mic_sel: if self.mic_sel > 0 {
                    self.mic_sel - 1
                } else {
                    self.mic_sel
                },
                ..self
            }
        } else {
            PickerModel {
                sys_sel: if self.sys_sel > 0 {
                    self.sys_sel - 1
                } else {
                    self.sys_sel
                },
                ..self
            }
        }
    }

    /// The picker with the choice below selected, where there is one.
    pub open spec fn moved_down(self) -> Self {
        if self.focus == 0 {
            PickerModel {
                mic_sel: if self.mic_sel + 1 < self.mic.len() {
                    self.mic_sel + 1
                } else {
                    self.mic_sel
                },
                ..self
            }
        } else {
            PickerModel {
                sys_sel: if self.sys_sel + 1 < self.sys.len() {
                    self.sys_sel + 1
                } else {
                    self.sys_sel
                },
                ..self
            }
        }
    }
}

impl DevicePicker {
    fn switch_section(&mut self)
        requires
            old(self)@.wf(),
        ensures
            final(self)@ == old(self)@.switched(),
    {
        self.focus = if self.focus == 0 {
            1
        } else {
            0
        };
    }

    fn move_up(&mut self)
        requires
            old(self)@.wf(),
        ensures
            final(self)@ == old(self)@.moved_up(),
    {
        if self.focus == 0 {
            if self.mic_sel > 0 {
                self.mic_sel -= 1;
            }
        } else if self.sys_sel > 0 {
            self.sys_sel -= 1;
        }
    }

    fn move_down(&mut self)
        requires
            old(self)@.wf(),
        ensures
            final(self)@ == old(self)@.moved_down(),
    {
        if self.focus == 0 {
            if self.mic.len() - self.mic_sel > 1 {
                self.mic_sel += 1;
            }
        } else if self.sys.len() - self.sys_sel > 1 {
            self.sys_sel += 1;
        }
    }
}

/// A session on the screen.
pub struct Session {
    pub lines: Vec<TranscriptLine>,
    pub saved_note: Option<String>,
    pub translator_status: TranslatorStatus,
    pub input_name: String,
    pub model_name: String,
    pub picker: Option<DevicePicker>,
    pub draft: DraftState,
    pub show_help: bool,
    pub scroll_up: u16,
    pub scroll_max: u16,
    pub layout: TranscriptLayout,
    /// Something visible changed since the last frame.
    pub needs_redraw: bool,
    /// The step of the level gauge in the last frame.
    pub last_gauge_bucket: u16,
    pub mic_device: String,
    pub sys_device: String,
    pub language: String,
    pub paused: bool,
    /// Translation is off.
    pub single_column: bool,
}

/// The contents of a [`Session`].
pub struct SessionModel {
    pub lines: Seq<LineModel>,
    pub saved_note: Option<Seq<char>>,
    pub translator_status: TranslatorStatus,
    pub input_name: Seq<char>,
    pub model_name: Seq<char>,
    pub picker: Option<PickerModel>,
    pub draft: DraftState,
    pub show_help: bool,
    pub scroll_up: u16,
    pub scroll_max: u16,
    pub layout: LayoutModel,
    pub needs_redraw: bool,
    pub last_gauge_bucket: u16,
    pub mic_device: Seq<char>,
    pub sys_device: Seq<char>,
    pub language: Seq<char>,
    pub paused: bool,
    pub single_column: bool,
}

/// The contents of an optional picker.
pub open spec fn picker_model(p: Option<DevicePicker>) -> Option<PickerModel> {
    match p {
        Some(pk) => Some(pk@),
        None => None,
    }
}

impl View for Session {
    type V = SessionModel;

    open spec fn view(&self) -> SessionModel {
        SessionModel {
            lines: transcribe::line_models(self.lines@),
            saved_note: text::opt_str(self.saved_note),
            translator_status: self.translator_status,
            input_name: self.input_name@,
            model_name: self.model_name@,
            picker: picker_model(self.picker),
            draft: self.draft,
            show_help: self.show_help,
            scroll_up: self.scroll_up,
            scroll_max: self.scroll_max,
            layout: self.layout@,
            needs_redraw: self.needs_redraw,
            last_gauge_bucket: self.last_gauge_bucket,
            mic_device: self.mic_device@,
            sys_device: self.sys_device@,
            language: self.language@,
            paused: self.paused,
            single_column: self.single_column,
        }
    }
}

impl SessionModel {
    /// The screen is scrolled no further than it can be, the picker holds choices
    /// that there are, and the layout agrees with the transcript.
    pub open spec fn wf(self) -> bool {
        &&& self.scroll_up <= self.scroll_max
        &&& self.picker matches Some(pk) ==> pk.wf()
        &&& self.layout.agrees(self.lines, self.single_column)
    }
}

/// What is found out about the model of the translator at the start.
#[derive(Clone, Copy, Debug, PartialEq, Eq, Structural)]
pub enum ModelCheck {
    Usable,
    /// There is no such file: the session runs without translation.
    Missing,
    /// The file is too small for a model, likely a broken download.
    TooSmall,
}

/// The smallest file that can be a model.
pub const MIN_MODEL_BYTES: u64 = 10_000_000;

/// Judges the model of the translator. A file whose length cannot be told passes.
pub fn check_translator_model(present: bool, len: Option<u64>) -> (r: ModelCheck)
    ensures
        r == if !present {
            ModelCheck::Missing
        } else if len matches Some(n) && n < MIN_MODEL_BYTES {
            ModelCheck::TooSmall
        } else {
            ModelCheck::Usable
        },
{
    if !present {
        return ModelCheck::Missing;
    }
    match len {
        Some(n) => if n < MIN_MODEL_BYTES {
            ModelCheck::TooSmall
        } else {
            ModelCheck::Usable
        },
        None => ModelCheck::Usable,
    }
}

/// With what a session starts.
pub struct Setup<'a> {
    pub mic_device: &'a str,
    pub sys_device: Option<&'a str>,
    pub language: &'a str,
    /// The file name of the speech model, where its path has one.
    pub model_file: Option<&'a str>,
    /// The name of the source that was opened.
    pub input_name: &'a str,
    /// The translator is started.
    pub translating: bool,
    pub single_column: bool,
}

/// A session at its start.
pub open spec fn started(setup: Setup) -> SessionModel {
    let empty = CacheModel { width: 0, rows: Seq::empty() };
    SessionModel {
        lines: Seq::empty(),
        saved_note: None,
        translator_status: if setup.translating {
            TranslatorStatus::Loading
        } else {
            TranslatorStatus::Failed
        },
        input_name: setup.input_name@,
        model_name: match setup.model_file {
            Some(f) => f@,
            None => "unknown"@,
        },
        picker: None,
        draft: msg::idle_draft(),
        show_help: false,
        scroll_up: 0,
        scroll_max: 0,
        layout: LayoutModel { en: empty, ja: empty },
        needs_redraw: true,
        last_gauge_bucket: u16::MAX,
        mic_device: setup.mic_device@,
        sys_device: match setup.sys_device {
            Some(d) => d@,
            None => "(none)"@,
        },
        language: setup.language@,
        paused: false,
        single_column: setup.single_column,
    }
}

/// The position of the first line with an id.
pub open spec fn line_index(lines: Seq<LineModel>, id: u64) -> Option<int>
    decreases lines.len(),
{
    if lines.len() == 0 {
        None
    } else {
        match line_index(lines.drop_last(), id) {
            Some(i) => Some(i),
            None => if lines.last().id == id {
                Some(lines.len() - 1)
            } else {
                None
            },
        }
    }
}

/// What `line_index` finds: a line with the id, the first of them, or nothing where
/// no line has it.
pub proof fn line_index_is_first(lines: Seq<LineModel>, id: u64)
    ensures
        match line_index(lines, id) {
            Some(i) => {
                &&& 0 <= i < lines.len()
                &&& lines[i].id == id
                &&& forall|j: int| 0 <= j < i ==> (#[trigger] lines[j]).id != id
            },
            None => forall|j: int| 0 <= j < lines.len() ==> (#[trigger] lines[j]).id != id,
        },
    decreases lines.len(),
{
    if lines.len() > 0 {
        let before = lines.drop_last();
        line_index_is_first(before, id);
        match line_index(lines, id) {
            Some(i) => {
                assert forall|j: int| 0 <= j < i implies (#[trigger] lines[j]).id != id by {
                    assert(before[j].id != id);
                }
            },
            None => {
                assert forall|j: int| 0 <= j < lines.len() implies (#[trigger] lines[j]).id
                    != id by {
                    if j < before.len() {
                        assert(before[j].id != id);
                    }
                }
            },
        }
    }
}

proof fn lemma_line_index_extends(lines: Seq<LineModel>, id: u64, n: int)
    requires
        0 <= n <= lines.len(),
        line_index(lines.take(n), id) is Some,
    ensures
        line_index(lines, id) == line_index(lines.take(n), id),
    decreases lines.len(),
{
    if n < lines.len() {
        assert(lines.drop_last().take(n) =~= lines.take(n));
        lemma_line_index_extends(lines.drop_last(), id, n);
    } else {
        assert(lines.take(n) =~= lines);
    }
}

fn find_line(lines: &Vec<TranscriptLine>, id: u64) -> (r: Option<usize>)
    ensures
        match r {
            Some(i) => line_index(transcribe::line_models(lines@), id) == Some(i as int) && i
                < lines@.len(),
            None => line_index(transcribe::line_models(lines@), id) is None,
        },
{
    let ghost all = transcribe::line_models(lines@);
    let mut i: usize = 0;
    while i < lines.len()
        invariant
            i <= lines@.len(),
            all == transcribe::line_models(lines@),
            line_index(all.take(i as int), id) is None,
        decreases lines@.len() - i,
    {
        assert(all.take(i + 1).drop_last() =~= all.take(i as int));
        assert(all.take(i + 1).last() == lines@[i as int]@);
        if lines[i].id == id {
            proof {
                lemma_line_index_extends(all, id, i + 1);
            }
            return Some(i);
        }
        i += 1;
    }
    assert(all.take(lines@.len() as int) =~= all);
    None
}

/// A session after a message: a new line stands at the end; a translation goes to
/// the first line with its id, whose rows are then counted again, and is dropped
/// where there is none.
pub open spec fn after_message(m: SessionModel, message: UiMsg) -> SessionModel {
    match message {
        UiMsg::NewLine(line) => SessionModel {
            lines: m.lines.push(line@),
            needs_redraw: true,
            ..m
        },
        UiMsg::TranslationReady { id, translated } => match line_index(m.lines, id) {
            Some(i) => SessionModel {
                lines: m.lines.update(
                    i,
                    LineModel { translated: Some(translated@), ..m.lines[i] },
                ),
                layout: m.layout.cut(i),
                needs_redraw: true,
                ..m
            },
            None => SessionModel { needs_redraw: true, ..m },
        },
        UiMsg::TranslatorStatus(s) => SessionModel {
            translator_status: s,
            needs_redraw: true,
            ..m
        },
    }
}

/// The step of the gauge that stands for a level. Steps of four percent keep small
/// fluctuations from repainting the screen.
pub open spec fn gauge_step(pct: u16) -> u16 {
    pct / 4
}

/// Repaints for the gauge alone are at least this far apart, in milliseconds.
pub const GAUGE_MIN_INTERVAL_MS: u64 = 100;

/// Whether a frame is due: something visible changed, or the gauge moved and the
/// last frame is long enough ago.
pub open spec fn is_frame_due(m: SessionModel, gauge_pct: u16, since_ms: u64) -> bool {
    m.needs_redraw || (gauge_step(gauge_pct) != m.last_gauge_bucket && since_ms
        >= GAUGE_MIN_INTERVAL_MS)
}

/// What the wheel of the mouse does.
#[derive(Clone, Copy, Debug, PartialEq, Eq, Structural)]
pub enum Wheel {
    Up,
    Down,
}

/// A position further from the tail, within the limit.
pub open spec fn scrolled_up(at: u16, by: u16, max: u16) -> u16 {
    if at + by <= max {
        (at + by) as u16
    } else {
        max
    }
}

/// A position nearer to the tail.
pub open spec fn scrolled_down(at: u16, by: u16) -> u16 {
    if at >= by {
        (at - by) as u16
    } else {
        0
    }
}

fn scroll_more(at: u16, by: u16, max: u16) -> (r: u16)
    requires
        at <= max,
    ensures
        r == scrolled_up(at, by, max),
{
    if by <= max - at {
        at + by
    } else {
        max
    }
}

fn scroll_less(at: u16, by: u16) -> (r: u16)
    ensures
        r == scrolled_down(at, by),
{
    if at >= by {
        at - by
    } else {
        0
    }
}

/// The rows that a page key scrolls by: half of the screen, or a few where its
/// height cannot be told, and at least one.
pub fn page_rows(height: Option<u16>) -> (r: u16)
    ensures
        r == match height {
            Some(h) => if h / 2 > 0 {
                h / 2
            } else {
                1
            },
            None => 5,
        },
{
    match height {
        Some(h) => {
            let half: u16 = h / 2;
            if half > 0 {
                half
            } else {
                1
            }
        },
        None => 5,
    }
}

/// A key.
#[derive(Clone, Copy, Debug, PartialEq, Eq, Structural)]
pub enum Key {
    Char(char),
    Up,
    Down,
    Left,
    Right,
    Tab,
    Enter,
    Esc,
    PageUp,
    PageDown,
    Home,
    End,
    Other,
}

/// What is to be done outside after a key.
pub enum Action {
    Nothing,
    /// Write the transcript, then end.
    SaveAndQuit,
    /// Write the transcript.
    Save,
    /// The language of the recognition is this one from now on.
    SetLanguage(String),
    SetPaused(bool),
    /// List the devices and open the picker with them.
    ListDevices,
    /// Open these sources in place of the current ones.
    Switch { mic: String, sys: String },
    /// Open these sources; only the system audio differs.
    ToggleSystemAudio { mic: String, sys: String },
}

/// The contents of an [`Action`].
pub enum ActionModel {
    Nothing,
    SaveAndQuit,
    Save,
    SetLanguage(Seq<char>),
    SetPaused(bool),
    ListDevices,
    Switch { mic: Seq<char>, sys: Seq<char> },
    ToggleSystemAudio { mic: Seq<char>, sys: Seq<char> },
}

impl View for Action {
    type V = ActionModel;

    open spec fn view(&self) -> ActionModel {
        match *self {
            Action::Nothing => ActionModel::Nothing,
            Action::SaveAndQuit => ActionModel::SaveAndQuit,
            Action::Save => ActionModel::Save,
            Action::SetLanguage(l) => ActionModel::SetLanguage(l@),
            Action::SetPaused(p) => ActionModel::SetPaused(p),
            Action::ListDevices => ActionModel::ListDevices,
            Action::Switch { mic, sys } => ActionModel::Switch { mic: mic@, sys: sys@ },
            Action::ToggleSystemAudio { mic, sys } => ActionModel::ToggleSystemAudio {
                mic: mic@,
                sys: sys@,
            },
        }
    }
}

/// The language behind this one: English, Japanese, detection.
pub open spec fn next_language(language: Seq<char>) -> Seq<char> {
    if language == "en"@ {
        "ja"@
    } else if language == "ja"@ {
        "auto"@
    } else {
        "en"@
    }
}

/// The choice for system audio that a quick toggle gives: none, or what is detected.
pub open spec fn toggled_sys(sys: Seq<char>) -> Seq<char> {
    if sys == "(none)"@ {
        "(auto)"@
    } else {
        "(none)"@
    }
}

/// The source that a choice for system audio opens.
pub fn system_source(sys: &str) -> (r: Option<&str>)
    ensures
        match r {
            Some(s) => sys@ != "(none)"@ && s@ == sys@,
            None => sys@ == "(none)"@,
        },
{
    if same(sys, "(none)") {
        None
    } else {
        Some(sys)
    }
}

/// Whether a key is Ctrl-C, which ends the session whatever is on the screen.
pub open spec fn is_interrupt(key: Key, control: bool) -> bool {
    key == Key::Char('c') && control
}

/// What is to be done outside after a key. `control` says that the control key, and
/// no other modifier, is held.
pub open spec fn key_action(m: SessionModel, key: Key, control: bool) -> ActionModel {
    if is_interrupt(key, control) {
        ActionModel::SaveAndQuit
    } else if m.show_help {
        ActionModel::Nothing
    } else if let Some(pk) = m.picker {
        if key == Key::Enter {
            ActionModel::Switch { mic: pk.mic[pk.mic_sel], sys: pk.sys[pk.sys_sel] }
        } else {
            ActionModel::Nothing
        }
    } else if key == Key::Char('q') {
        ActionModel::SaveAndQuit
    } else if key == Key::Char('s') {
        ActionModel::Save
    } else if key == Key::Char('l') {
        ActionModel::SetLanguage(next_language(m.language))
    } else if key == Key::Char(' ') {
        ActionModel::SetPaused(!m.paused)
    } else if key == Key::Char('d') {
        ActionModel::ListDevices
    } else if key == Key::Char('m') {
        ActionModel::ToggleSystemAudio { mic: m.mic_device, sys: toggled_sys(m.sys_device) }
    } else {
        ActionModel::Nothing
    }
}

/// The help after a key.
pub open spec fn help_after(key: Key) -> bool {
    !(key == Key::Char('?') || key == Key::Esc || key == Key::Char('q') || key == Key::Enter)
}

/// The picker after a key.
pub open spec fn picker_after(pk: PickerModel, key: Key) -> Option<PickerModel> {
    if key == Key::Esc || key == Key::Char('q') || key == Key::Enter {
        None
    } else if key == Key::Tab || key == Key::Right || key == Key::Left {
        Some(pk.switched())
    } else if key == Key::Up {
        Some(pk.moved_up())
    } else if key == Key::Down {
        Some(pk.moved_down())
    } else {
        Some(pk)
    }
}

/// How far the screen is scrolled after a key.
pub open spec fn scroll_after(m: SessionModel, key: Key, page: u16) -> u16 {
    match key {
        Key::Up => scrolled_up(m.scroll_up, 1, m.scroll_max),
        Key::Down => scrolled_down(m.scroll_up, 1),
        Key::PageUp => scrolled_up(m.scroll_up, page, m.scroll_max),
        Key::PageDown => scrolled_down(m.scroll_up, page),
        Key::Home => m.scroll_max,
        Key::End => 0,
        _ => m.scroll_up,
    }
}

/// A session after a key: the help takes it first, then the picker.
pub open spec fn after_key(m: SessionModel, key: Key, control: bool, page: u16) -> SessionModel {
    if m.show_help {
        SessionModel { show_help: help_after(key), needs_redraw: true, ..m }
    } else if let Some(pk) = m.picker {
        SessionModel { picker: picker_after(pk, key), needs_redraw: true, ..m }
    } else {
        SessionModel {
            language: if key == Key::Char('l') {
                next_language(m.language)
            } else {
                m.language
            },
            paused: if key == Key::Char(' ') {
                !m.paused
            } else {
                m.paused
            },
            show_help: key == Key::Char('?'),
            scroll_up: scroll_after(m, key, page),
            needs_redraw: true,
            ..m
        }
    }
}

/// The selection in the picker: the current device, or a fallback.
pub open spec fn selection(list: Seq<Seq<char>>, device: Seq<char>, fallback: int) -> int {
    match text::first_index(list, device) {
        Some(i) => i,
        None => fallback,
    }
}

/// The picker that opens with these devices.
pub open spec fn opened_picker(
    inputs: Seq<Seq<char>>,
    outputs: Seq<Seq<char>>,
    mic_device: Seq<char>,
    sys_device: Seq<char>,
) -> PickerModel {
    let mic = audio::mic_choices(inputs);
    let sys = audio::sys_choices(inputs, outputs);
    PickerModel {
        mic,
        sys,
        mic_sel: selection(mic, mic_device, 0),
        sys_sel: selection(sys, sys_device, selection(sys, "(auto)"@, 0)),
        focus: 0,
    }
}

fn select(list: &Vec<String>, device: &str, fallback: usize) -> (r: usize)
    ensures
        r == selection(text::strs(list@), device@, fallback as int),
        fallback < list@.len() ==> r < list@.len(),
{
    proof {
        text::lemma_first_index(text::strs(list@), device@);
    }
    match position(list, device) {
        Some(i) => i,
        None => fallback,
    }
}

proof fn lemma_choices_not_empty(list: Seq<Seq<char>>, prefix: Seq<char>, names: Seq<Seq<char>>)
    ensures
        audio::with_names(list, prefix, names).len() >= list.len(),
    decreases names.len(),
{
    if names.len() > 0 {
        lemma_choices_not_empty(list, prefix, names.drop_last());
    }
}

/// A session after the picker was asked for.
pub open spec fn after_devices(
    m: SessionModel,
    inputs: Seq<Seq<char>>,
    outputs: Seq<Seq<char>>,
) -> SessionModel {
    SessionModel {
        picker: Some(opened_picker(inputs, outputs, m.mic_device, m.sys_device)),
        ..m
    }
}

/// A session after other sources were opened, or did not open. `opened` is the name
/// of what was opened.
pub open spec fn after_switch(
    m: SessionModel,
    mic: Seq<char>,
    sys: Seq<char>,
    opened: Option<Seq<char>>,
) -> SessionModel {
    match opened {
        Some(name) => SessionModel { input_name: name, mic_device: mic, sys_device: sys, ..m },
        None => m,
    }
}

/// A session after the quick toggle of system audio, with what was opened or why
/// nothing was.
pub open spec fn after_toggle(
    m: SessionModel,
    sys: Seq<char>,
    opened: Result<Seq<char>, Seq<char>>,
) -> SessionModel {
    match opened {
        Ok(name) => SessionModel {
            input_name: name,
            sys_device: sys,
            saved_note: Some("system audio: "@ + name),
            ..m
        },
        Err(e) => SessionModel { saved_note: Some("system audio: "@ + e), ..m },
    }
}

/// The contents of what came back from opening sources.
pub open spec fn opened_model(r: Result<String, String>) -> Result<Seq<char>, Seq<char>> {
    match r {
        Ok(n) => Ok(n@),
        Err(e) => Err(e@),
    }
}

impl Session {
    /// The screen, the picker and the layout are consistent.
    pub open spec fn wf(&self) -> bool {
        self@.wf()
    }

    pub fn new(setup: Setup) -> (r: Self)
        ensures
            r@ == started(setup),
            r.wf(),
    {
        let sys = match setup.sys_device {
            Some(d) => d,
            None => "(none)",
        };
        let model = match setup.model_file {
            Some(f) => f,
            None => "unknown",
        };
        let r = Session {
            lines: Vec::new(),
            saved_note: None,
            translator_status: if setup.translating {
                TranslatorStatus::Loading
            } else {
                TranslatorStatus::Failed
            },
            input_name: setup.input_name.to_owned(),
            model_name: model.to_owned(),
            picker: None,
            draft: DraftState::default(),
            show_help: false,
            scroll_up: 0,
            scroll_max: 0,
            layout: TranscriptLayout::new(),
            needs_redraw: true,
            last_gauge_bucket: 65_535,
            mic_device: setup.mic_device.to_owned(),
            sys_device: sys.to_owned(),
            language: setup.language.to_owned(),
            paused: false,
            single_column: setup.single_column,
        };
        assert(r@.lines =~= Seq::<LineModel>::empty());
        r
    }

    /// Takes a message of the workers.
    pub fn on_message(&mut self, message: UiMsg)
        requires
            old(self).wf(),
        ensures
            final(self).wf(),
            final(self)@ == after_message(old(self)@, message),
    {
        let ghost before = self@;
        let ghost col = ui::first_col(before.single_column);
        self.needs_redraw = true;
        match message {
            UiMsg::NewLine(line) => {
                proof {
                    ui::new_line_keeps_cache(before.layout.en, before.lines, col, line@);
                    ui::new_line_keeps_cache(before.layout.ja, before.lines, "ja"@, line@);
                }
                self.lines.push(line);
                assert(self@.lines =~= before.lines.push(line@));
            },
            UiMsg::TranslationReady { id, translated } => {
                if let Some(i) = find_line(&self.lines, id) {
                    let mut line = self.lines[i].clone();
                    line.translated = Some(translated);
                    proof {
                        ui::cut_cache_allows_change(
                            before.layout.en,
                            before.lines,
                            col,
                            i as int,
                            line@,
                        );
                        ui::cut_cache_allows_change(
                            before.layout.ja,
                            before.lines,
                            "ja"@,
                            i as int,
                            line@,
                        );
                    }
                    self.lines.set(i, line);
                    self.layout.invalidate_line(i);
                    assert(self@.lines =~= before.lines.update(i as int, line@));
                }
            },
            UiMsg::TranslatorStatus(s) => {
                self.translator_status = s;
            },
        }
    }

    /// Takes a snapshot of the segment in progress.
    pub fn on_draft(&mut self, draft: DraftState)
        requires
            old(self).wf(),
        ensures
            final(self).wf(),
            final(self)@ == (SessionModel { draft, needs_redraw: true, ..old(self)@ }),
    {
        self.draft = draft;
        self.needs_redraw = true;
    }

    /// Whether a frame is due. Where it is, the frame counts as painted.
    pub fn frame_due(&mut self, gauge_pct: u16, since_ms: u64) -> (due: bool)
        requires
            old(self).wf(),
        ensures
            final(self).wf(),
            due == is_frame_due(old(self)@, gauge_pct, since_ms),
            final(self)@ == if due {
                SessionModel {
                    needs_redraw: false,
                    last_gauge_bucket: gauge_step(gauge_pct),
                    ..old(self)@
                }
            } else {
                old(self)@
            },
    {
        let bucket: u16 = gauge_pct / 4;
        let due = self.needs_redraw || (bucket != self.last_gauge_bucket && since_ms
            >= GAUGE_MIN_INTERVAL_MS);
        if due {
            self.needs_redraw = false;
            self.last_gauge_bucket = bucket;
        }
        due
    }

    /// Sets a frame for panes of these sizes, and then scrolls back where the columns
    /// cannot be scrolled as far as before. The two durations are those of the draft.
    pub fn frame(
        &mut self,
        level_pct: u16,
        speech_secs: &str,
        elapsed_secs: &str,
        first: PaneSize,
        second: PaneSize,
    ) -> (r: Screen)
        requires
            old(self).wf(),
            first.width <= MAX_WIDTH,
            second.width <= MAX_WIDTH,
        ensures
            final(self).wf(),
            ({
                let m = old(self)@;
                let col = ui::first_col(m.single_column);
                let en = m.layout.en.synced(m.lines, col, first.width as int);
                let ja = m.layout.ja.synced(m.lines, "ja"@, second.width as int);
                &&& final(self)@ == (SessionModel {
                    scroll_max: r.scroll_max,
                    scroll_up: if m.scroll_up < r.scroll_max {
                        m.scroll_up
                    } else {
                        r.scroll_max
                    },
                    layout: LayoutModel {
                        en,
                        ja: if m.single_column {
                            m.layout.ja
                        } else {
                            ja
                        },
                    },
                    ..m
                })
                &&& ui::is_column(
                    r.first,
                    if m.single_column {
                        ui::transcript_title(m.language)
                    } else {
                        " English "@
                    },
                    m.lines,
                    col,
                    en.rows,
                    first.height,
                    m.scroll_up,
                )
                &&& match r.second {
                    Some(c) => {
                        &&& !m.single_column
                        &&& ui::is_column(
                            c,
                            " 日本語 "@,
                            m.lines,
                            "ja"@,
                            ja.rows,
                            second.height,
                            m.scroll_up,
                        )
                        &&& r.scroll_max == if c.view.col_max > r.first.view.col_max {
                            c.view.col_max
                        } else {
                            r.first.view.col_max
                        }
                    },
                    None => m.single_column && r.scroll_max == r.first.view.col_max,
                }
                &&& r.title@ == ui::title_text(
                    !m.paused,
                    m.language,
                    m.input_name,
                    m.model_name,
                    m.translator_status,
                )
                &&& r.level_pct == level_pct
                &&& r.draft@ == ui::draft_text(m.draft.active, speech_secs@, elapsed_secs@)
                &&& r.help@ == ui::help_text(m.saved_note, m.scroll_up)
                &&& match (r.picker, m.picker) {
                    (Some(v), Some(pk)) => {
                        &&& ui::is_section(v.mic@, pk.mic, pk.mic_sel, pk.focus == 0)
                        &&& ui::is_section(v.sys@, pk.sys, pk.sys_sel, pk.focus == 1)
                        &&& v.mic_focused == (pk.focus == 0)
                        &&& v.sys_focused == (pk.focus == 1)
                    },
                    (None, None) => true,
                    _ => false,
                }
                &&& r.show_help == m.show_help
            }),
    {
        let ghost m = self@;
        let state = UiState {
            lines: &self.lines,
            level_pct,
            language: self.language.as_str(),
            recording: !self.paused,
            input_name: self.input_name.as_str(),
            model_name: self.model_name.as_str(),
            saved_note: match &self.saved_note {
                Some(n) => Some(n.as_str()),
                None => None,
            },
            translator_status: self.translator_status,
            single_column: self.single_column,
            picker: match &self.picker {
                Some(pk) => Some(pk),
                None => None,
            },
            show_help: self.show_help,
            draft: self.draft,
            speech_secs,
            elapsed_secs,
            scroll_up: self.scroll_up,
        };
        proof {
            ui::synced_cache_is_right(
                m.layout.en,
                m.lines,
                ui::first_col(m.single_column),
                first.width as int,
            );
            ui::synced_cache_is_right(m.layout.ja, m.lines, "ja"@, second.width as int);
        }
        let screen = draw(&state, &mut self.layout, first, second);
        self.scroll_max = screen.scroll_max;
        if self.scroll_up >= self.scroll_max {
            self.scroll_up = self.scroll_max;
        }
        screen
    }

    /// Takes a turn of the wheel.
    pub fn on_wheel(&mut self, wheel: Wheel)
        requires
            old(self).wf(),
        ensures
            final(self).wf(),
            final(self)@ == (SessionModel {
                scroll_up: match wheel {
                    Wheel::Up => scrolled_up(old(self)@.scroll_up, 3, old(self)@.scroll_max),
                    Wheel::Down => scrolled_down(old(self)@.scroll_up, 3),
                },
                needs_redraw: true,
                ..old(self)@
            }),
    {
        self.needs_redraw = true;
        self.scroll_up = match wheel {
            Wheel::Up => scroll_more(self.scroll_up, 3, self.scroll_max),
            Wheel::Down => scroll_less(self.scroll_up, 3),
        };
    }

    /// Takes an event that is no key and no turn of the wheel: the screen is painted
    /// again.
    pub fn on_other_event(&mut self)
        requires
            old(self).wf(),
        ensures
            final(self).wf(),
            final(self)@ == (SessionModel { needs_redraw: true, ..old(self)@ }),
    {
        self.needs_redraw = true;
    }

    /// Takes a key while the help is shown.
    fn key_in_help(&mut self, key: Key)
        requires
            old(self).wf(),
            old(self)@.show_help,
        ensures
            final(self)@ == after_key(old(self)@, key, false, 0),
    {
        self.needs_redraw = true;
        if key == Key::Char('?') || key == Key::Esc || key == Key::Char('q') || key == Key::Enter {
            self.show_help = false;
        }
    }

    /// Takes a key while the picker is open.
    fn key_in_picker(&mut self, key: Key) -> (r: Action)
        requires
            old(self).wf(),
            !old(self)@.show_help,
            old(self)@.picker is Some,
        ensures
            final(self).wf(),
            final(self)@ == after_key(old(self)@, key, false, 0),
            r@ == key_action(old(self)@, key, false),
    {
        self.needs_redraw = true;
        match self.picker.take() {
            Some(pk) => {
                let mut pk = pk;
                match key {
                    Key::Esc | Key::Char('q') => Action::Nothing,
                    Key::Enter => {
                        assert(pk@.mic[pk.mic_sel as int] == pk.mic@[pk.mic_sel as int]@);
                        assert(pk@.sys[pk.sys_sel as int] == pk.sys@[pk.sys_sel as int]@);
                        Action::Switch {
                            mic: pk.mic[pk.mic_sel].clone(),
                            sys: pk.sys[pk.sys_sel].clone(),
                        }
                    },
                    Key::Tab | Key::Right | Key::Left => {
                        pk.switch_section();
                        self.picker = Some(pk);
                        Action::Nothing
                    },
                    Key::Up => {
                        pk.move_up();
                        self.picker = Some(pk);
                        Action::Nothing
                    },
                    Key::Down => {
                        pk.move_down();
                        self.picker = Some(pk);
                        Action::Nothing
                    },
                    _ => {
                        self.picker = Some(pk);
                        Action::Nothing
                    },
                }
            },
            None => Action::Nothing,
        }
    }

    fn cycle_language(&mut self) -> (r: String)
        ensures
            final(self)@ == (SessionModel {
                language: next_language(old(self)@.language),
                ..old(self)@
            }),
            r@ == next_language(old(self)@.language),
    {
        let next = if same(self.language.as_str(), "en") {
            "ja"
        } else if same(self.language.as_str(), "ja") {
            "auto"
        } else {
            "en"
        };
        self.language = next.to_owned();
        next.to_owned()
    }

    /// Takes a key. `control` says that the control key, and no other modifier, is
    /// held; `page` is how far the page keys scroll.
    pub fn on_key(&mut self, key: Key, control: bool, page: u16) -> (r: Action)
        requires
            old(self).wf(),
        ensures
            final(self).wf(),
            final(self)@ == after_key(old(self)@, key, control, page),
            r@ == key_action(old(self)@, key, control),
    {
        if control && key == Key::Char('c') {
            self.needs_redraw = true;
            return Action::SaveAndQuit;
        }
        if self.show_help {
            self.key_in_help(key);
            return Action::Nothing;
        }
        if self.picker.is_some() {
            return self.key_in_picker(key);
        }
        self.needs_redraw = true;
        match key {
            Key::Char('q') => Action::SaveAndQuit,
            Key::Char('s') => Action::Save,
            Key::Char('l') => Action::SetLanguage(self.cycle_language()),
            Key::Char(' ') => {
                self.paused = !self.paused;
                Action::SetPaused(self.paused)
            },
            Key::Char('d') => Action::ListDevices,
            Key::Char('m') => {
                let next = if same(self.sys_device.as_str(), "(none)") {
                    "(auto)"
                } else {
                    "(none)"
                };
                Action::ToggleSystemAudio { mic: self.mic_device.clone(), sys: next.to_owned() }
            },
            Key::Char('?') => {
                self.show_help = true;
                Action::Nothing
            },
            Key::Up => {
                self.scroll_up = scroll_more(self.scroll_up, 1, self.scroll_max);
                Action::Nothing
            },
            Key::Down => {
                self.scroll_up = scroll_less(self.scroll_up, 1);
                Action::Nothing
            },
            Key::PageUp => {
                self.scroll_up = scroll_more(self.scroll_up, page, self.scroll_max);
                Action::Nothing
            },
            Key::PageDown => {
                self.scroll_up = scroll_less(self.scroll_up, page);
                Action::Nothing
            },
            Key::Home => {
                self.scroll_up = self.scroll_max;
                Action::Nothing
            },
            Key::End => {
                self.scroll_up = 0;
                Action::Nothing
            },
            _ => Action::Nothing,
        }
    }

    /// Opens the picker with the devices that there are.
    pub fn on_devices(&mut self, inputs: &Vec<String>, outputs: &Vec<String>)
        requires
            old(self).wf(),
        ensures
            final(self).wf(),
            final(self)@ == after_devices(old(self)@, text::strs(inputs@), text::strs(outputs@)),
    {
        let (mic, sys) = list_devices_split(inputs, outputs);
        proof {
            let i = text::strs(inputs@);
            let o = text::strs(outputs@);
            let none = Seq::<char>::empty();
            lemma_choices_not_empty(seq!["(none)"@, "default"@], none, i);
            lemma_choices_not_empty(seq!["(none)"@, "(auto)"@], none, i);
            lemma_choices_not_empty(
                audio::with_names(seq!["(none)"@, "(auto)"@], none, i),
                audio::LOOPBACK_PREFIX@,
                o,
            );
        }
        let mic_sel: usize = select(&mic, self.mic_device.as_str(), 0);
        let auto: usize = select(&sys, "(auto)", 0);
        let sys_sel: usize = select(&sys, self.sys_device.as_str(), auto);
        self.picker = Some(DevicePicker { mic, sys, mic_sel, sys_sel, focus: 0 });
    }

    /// The sources that were picked opened under a name, or did not open.
    pub fn on_switched(&mut self, mic: String, sys: String, opened: Option<String>)
        requires
            old(self).wf(),
        ensures
            final(self).wf(),
            final(self)@ == after_switch(old(self)@, mic@, sys@, text::opt_str(opened)),
    {
        if let Some(name) = opened {
            self.input_name = name;
            self.mic_device = mic;
            self.sys_device = sys;
        }
    }

    /// System audio was toggled, or could not be.
    pub fn on_toggled(&mut self, sys: String, opened: Result<String, String>)
        requires
            old(self).wf(),
        ensures
            final(self).wf(),
            final(self)@ == after_toggle(old(self)@, sys@, opened_model(opened)),
    {
        let mut note = "system audio: ".to_owned();
        match opened {
            Ok(name) => {
                note.append(name.as_str());
                self.input_name = name;
                self.sys_device = sys;
            },
            Err(e) => {
                note.append(e.as_str());
            },
        }
        self.saved_note = Some(note);
    }

    /// The transcript was written to a path.
    pub fn on_saved(&mut self, path: &str)
        requires
            old(self).wf(),
        ensures
            final(self).wf(),
            final(self)@ == (SessionModel {
                saved_note: Some("saved → "@ + path@),
                ..old(self)@
            }),
    {
        let mut note = "saved → ".to_owned();
        note.append(path);
        self.saved_note = Some(note);
    }
}

/// An idle session is not painted again: nothing visible changed and the gauge is
/// still on its step. A gauge that moves waits until the last frame is long enough
/// ago, while any other change is painted at once.
pub proof fn idle_session_is_not_painted(m: SessionModel, gauge_pct: u16, since_ms: u64)
    ensures
        !m.needs_redraw && gauge_step(gauge_pct) == m.last_gauge_bucket ==> !is_frame_due(
            m,
            gauge_pct,
            since_ms,
        ),
        !m.needs_redraw && since_ms < GAUGE_MIN_INTERVAL_MS ==> !is_frame_due(
            m,
            gauge_pct,
            since_ms,
        ),
        m.needs_redraw ==> is_frame_due(m, gauge_pct, since_ms),
{
}

/// The language key goes round: three presses lead back to where they began.
pub proof fn languages_go_round(language: Seq<char>)
    requires
        language == "en"@ || language == "ja"@ || language == "auto"@,
    ensures
        next_language(next_language(next_language(language))) == language,
        next_language(language) != language,
{
    reveal_strlit("en");
    reveal_strlit("ja");
    reveal_strlit("auto");
    assert("en"@[0] == 'e' && "ja"@[0] == 'j' && "auto"@[0] == 'a');
}

/// Pausing twice resumes, and changes nothing else.
pub proof fn pausing_twice_resumes(m: SessionModel, page: u16)
    requires
        !m.show_help,
        m.picker is None,
    ensures
        ({
            let once = after_key(m, Key::Char(' '), false, page);
            &&& once.paused != m.paused
            &&& after_key(once, Key::Char(' '), false, page) == (SessionModel {
                needs_redraw: true,
                ..m
            })
        }),
{
}

/// A quick toggle of system audio is undone by another one where the sources open,
/// unless a device was chosen by name: that choice is left for none, and then for
/// what is detected.
pub proof fn toggling_twice_restores(sys: Seq<char>)
    requires
        sys == "(none)"@ || sys == "(auto)"@,
    ensures
        toggled_sys(toggled_sys(sys)) == sys,
        toggled_sys(sys) != sys,
{
    reveal_strlit("(none)");
    reveal_strlit("(auto)");
    assert("(none)"@[1] == 'n' && "(auto)"@[1] == 'a');
}

/// Ctrl-C ends a session whatever is on the screen, the quit key ends it where no
/// overlay is open, and no other key does; the transcript is then saved.
pub proof fn what_ends_a_session(m: SessionModel, key: Key, control: bool)
    ensures
        key_action(m, key, control) is SaveAndQuit <==> (key == Key::Char('c') && control) || (key
            == Key::Char('q') && !m.show_help && m.picker is None),
{
}

/// While the help is shown, no key but Ctrl-C does anything but close it.
pub proof fn help_swallows_keys(m: SessionModel, key: Key, control: bool, page: u16)
    requires
        m.show_help,
        !is_interrupt(key, control),
    ensures
        key_action(m, key, control) is Nothing,
        after_key(m, key, control, page) == (SessionModel {
            show_help: after_key(m, key, control, page).show_help,
            needs_redraw: true,
            ..m
        }),
{
}

/// Leaving the picker without a choice leaves the sources as they were.
pub proof fn cancelling_keeps_sources(m: SessionModel, control: bool, page: u16)
    requires
        !m.show_help,
        m.picker is Some,
    ensures
        key_action(m, Key::Esc, control) is Nothing,
        after_key(m, Key::Esc, control, page) == (SessionModel {
            picker: None,
            needs_redraw: true,
            ..m
        }),
{
}

/// A scroll towards the start is undone by one towards the tail where there is room
/// for it.
pub proof fn scrolling_back_returns(at: u16, by: u16, max: u16)
    requires
        at + by <= max,
    ensures
        scrolled_down(scrolled_up(at, by, max), by) == at,
{
}

/// A session stays consistent through any message and any key.
pub proof fn events_keep_session_wf(
    m: SessionModel,
    message: UiMsg,
    key: Key,
    control: bool,
    page: u16,
)
    requires
        m.wf(),
    ensures
        after_message(m, message).wf(),
        after_key(m, key, control, page).wf(),
{
    let col = ui::first_col(m.single_column);
    match message {
        UiMsg::NewLine(line) => {
            ui::new_line_keeps_cache(m.layout.en, m.lines, col, line@);
            ui::new_line_keeps_cache(m.layout.ja, m.lines, "ja"@, line@);
        },
        UiMsg::TranslationReady { id, translated } => {
            line_index_is_first(m.lines, id);
            if let Some(i) = line_index(m.lines, id) {
                let line = LineModel { translated: Some(translated@), ..m.lines[i] };
                ui::cut_cache_allows_change(m.layout.en, m.lines, col, i, line);
                ui::cut_cache_allows_change(m.layout.ja, m.lines, "ja"@, i, line);
            }
        },
        UiMsg::TranslatorStatus(_) => {},
    }
}

/// A translation that arrives changes the line that it belongs to and no other, and
/// of that line only the translation.
pub proof fn translation_reaches_its_line(m: SessionModel, id: u64, translated: String, j: int)
    requires
        0 <= j < m.lines.len(),
    ensures
        ({
            let after = after_message(m, UiMsg::TranslationReady { id, translated });
            &&& after.lines.len() == m.lines.len()
            &&& after.lines[j] == if line_index(m.lines, id) == Some(j) {
                LineModel { translated: Some(translated@), ..m.lines[j] }
            } else {
                m.lines[j]
            }
        }),
{
    line_index_is_first(m.lines, id);
}

/// What the keys do while neither the help nor the picker is open: each key has its
/// one effect, and every other key has none.
pub proof fn keys_of_the_transcript(m: SessionModel, key: Key, control: bool, page: u16)
    requires
        m.wf(),
        !m.show_help,
        m.picker is None,
        !(key == Key::Char('c') && control),
    ensures
        ({
            let act = key_action(m, key, control);
            let after = after_key(m, key, control, page);
            let same = SessionModel { needs_redraw: true, ..m };
            &&& after.needs_redraw
            &&& match key {
                Key::Char('q') => act == ActionModel::SaveAndQuit && after == same,
                Key::Char('s') => act == ActionModel::Save && after == same,
                Key::Char('l') => {
                    &&& m.language == "en"@ ==> act == ActionModel::SetLanguage("ja"@)
                    &&& m.language == "ja"@ ==> act == ActionModel::SetLanguage("auto"@)
                    &&& m.language == "auto"@ ==> act == ActionModel::SetLanguage("en"@)
                    &&& act is SetLanguage
                    &&& after == (SessionModel { language: act->SetLanguage_0, ..same })
                },
                Key::Char(' ') => act == ActionModel::SetPaused(!m.paused) && after == (
                SessionModel { paused: !m.paused, ..same }),
                Key::Char('d') => act == ActionModel::ListDevices && after == same,
                Key::Char('m') => {
                    &&& m.sys_device == "(none)"@ ==> act == ActionModel::ToggleSystemAudio {
                        mic: m.mic_device,
                        sys: "(auto)"@,
                    }
                    &&& m.sys_device != "(none)"@ ==> act == ActionModel::ToggleSystemAudio {
                        mic: m.mic_device,
                        sys: "(none)"@,
                    }
                    &&& after == same
                },
                Key::Char('?') => act == ActionModel::Nothing && after == (SessionModel {
                    show_help: true,
                    ..same
                }),
                Key::Up => act == ActionModel::Nothing && after == (SessionModel {
                    scroll_up: if m.scroll_up < m.scroll_max {
                        (m.scroll_up + 1) as u16
                    } else {
                        m.scroll_up
                    },
                    ..same
                }),
                Key::Down => act == ActionModel::Nothing && after == (SessionModel {
                    scroll_up: if m.scroll_up > 0 {
                        (m.scroll_up - 1) as u16
                    } else {
                        0
                    },
                    ..same
                }),
                Key::PageUp => {
                    &&& act == ActionModel::Nothing
                    &&& after == (SessionModel { scroll_up: after.scroll_up, ..same })
                    &&& after.scroll_up <= m.scroll_max
                    &&& after.scroll_up == m.scroll_up + page || (after.scroll_up == m.scroll_max
                        && m.scroll_up + page > m.scroll_max)
                },
                Key::PageDown => {
                    &&& act == ActionModel::Nothing
                    &&& after == (SessionModel { scroll_up: after.scroll_up, ..same })
                    &&& after.scroll_up + page == m.scroll_up || (after.scroll_up == 0 && page
                        > m.scroll_up)
                },
                Key::Home => act == ActionModel::Nothing && after == (SessionModel {
                    scroll_up: m.scroll_max,
                    ..same
                }),
                Key::End => act == ActionModel::Nothing && after == (SessionModel {
                    scroll_up: 0,
                    ..same
                }),
                _ => act == ActionModel::Nothing && after == same,
            }
        }),
{
    reveal_strlit("en");
    reveal_strlit("ja");
    reveal_strlit("auto");
    assert("en"@[0] == 'e' && "ja"@[0] == 'j' && "auto"@[0] == 'a');
}

/// What the keys do in the picker: the arrows move the selection of the section in
/// focus, up to its ends; tab and the side arrows change the section; enter takes both
/// selections and closes it; escape and the quit key close it; every other key leaves
/// it.
pub proof fn keys_of_the_picker(m: SessionModel, key: Key, control: bool, page: u16)
    requires
        m.wf(),
        !m.show_help,
        m.picker is Some,
        !(key == Key::Char('c') && control),
    ensures
        ({
            let pk = m.picker->0;
            let act = key_action(m, key, control);
            let after = after_key(m, key, control, page);
            &&& after == (SessionModel { picker: after.picker, needs_redraw: true, ..m })
            &&& key != Key::Enter ==> act == ActionModel::Nothing
            &&& match key {
                Key::Enter => {
                    &&& act == ActionModel::Switch {
                        mic: pk.mic[pk.mic_sel],
                        sys: pk.sys[pk.sys_sel],
                    }
                    &&& after.picker is None
                },
                Key::Esc => after.picker is None,
                Key::Char('q') => after.picker is None,
                Key::Tab | Key::Left | Key::Right => {
                    let focus: int = if pk.focus == 0 {
                        1
                    } else {
                        0
                    };
                    after.picker == Some(PickerModel { focus, ..pk })
                },
                Key::Up => {
                    &&& pk.focus == 0 && pk.mic_sel > 0 ==> after.picker == Some(
                        PickerModel { mic_sel: pk.mic_sel - 1, ..pk },
                    )
                    &&& pk.focus == 1 && pk.sys_sel > 0 ==> after.picker == Some(
                        PickerModel { sys_sel: pk.sys_sel - 1, ..pk },
                    )
                    &&& (pk.focus == 0 && pk.mic_sel == 0) || (pk.focus == 1 && pk.sys_sel == 0)
                        ==> after.picker == Some(pk)
                },
                Key::Down => {
                    &&& pk.focus == 0 && pk.mic_sel < pk.mic.len() - 1 ==> after.picker == Some(
                        PickerModel { mic_sel: pk.mic_sel + 1, ..pk },
                    )
                    &&& pk.focus == 1 && pk.sys_sel < pk.sys.len() - 1 ==> after.picker == Some(
                        PickerModel { sys_sel: pk.sys_sel + 1, ..pk },
                    )
                    &&& (pk.focus == 0 && pk.mic_sel == pk.mic.len() - 1) || (pk.focus == 1
                        && pk.sys_sel == pk.sys.len() - 1) ==> after.picker == Some(pk)
                },
                _ => after.picker == Some(pk),
            }
        }),
{
}

/// Which keys close the help: the one that opens it, escape, the quit key and enter.
pub proof fn keys_of_the_help(m: SessionModel, key: Key, control: bool, page: u16)
    requires
        m.show_help,
    ensures
        !after_key(m, key, control, page).show_help <==> key == Key::Char('?') || key == Key::Esc
            || key == Key::Char('q') || key == Key::Enter,
{
}

/// A new line stands at the end of the transcript, behind all that were there, and
/// nothing else changes; news of the translator change its status alone.
pub proof fn messages_change_one_thing(m: SessionModel, line: TranscriptLine, s: TranslatorStatus)
    ensures
        after_message(m, UiMsg::NewLine(line)) == (SessionModel {
            lines: m.lines + seq![line@],
            needs_redraw: true,
            ..m
        }),
        after_message(m, UiMsg::TranslatorStatus(s)) == (SessionModel {
            translator_status: s,
            needs_redraw: true,
            ..m
        }),
{
    assert(m.lines + seq![line@] =~= m.lines.push(line@));
}

/// A translation is put into the first line with its id. Where no line has the id,
/// the transcript stays as it was.
pub proof fn translations_find_their_line(m: SessionModel, id: u64, translated: String, i: int)
    requires
        0 <= i < m.lines.len(),
        m.lines[i].id == id,
        forall|j: int| 0 <= j < i ==> (#[trigger] m.lines[j]).id != id,
    ensures
        ({
            let after = after_message(m, UiMsg::TranslationReady { id, translated });
            &&& after.lines == m.lines.update(
                i,
                LineModel { translated: Some(translated@), ..m.lines[i] },
            )
            &&& after.needs_redraw
            &&& after.scroll_up == m.scroll_up
            &&& after.picker == m.picker
        }),
{
    line_index_is_first(m.lines, id);
    let k = line_index(m.lines, id);
    if k is None {
        assert(m.lines[i].id != id);
    } else if k->0 < i {
        assert(m.lines[k->0].id != id);
    }
}

/// A translation for a line that is not there changes no line.
pub proof fn stray_translations_change_no_line(m: SessionModel, id: u64, translated: String)
    requires
        forall|j: int| 0 <= j < m.lines.len() ==> (#[trigger] m.lines[j]).id != id,
    ensures
        after_message(m, UiMsg::TranslationReady { id, translated }).lines == m.lines,
{
    line_index_is_first(m.lines, id);
}

/// When a frame is due: at once after a visible change; for the level of the input
/// alone where it moved to another step of four percent and the last frame is at least
/// a tenth of a second ago.
pub proof fn when_a_frame_is_due(m: SessionModel, gauge_pct: u16, since_ms: u64)
    ensures
        is_frame_due(m, gauge_pct, since_ms) <==> m.needs_redraw || (m.last_gauge_bucket
            != gauge_pct / 4 && since_ms >= 100),
        4 * gauge_step(gauge_pct) <= gauge_pct < 4 * gauge_step(gauge_pct) + 4,
{
}

/// How the screen scrolls: by as many rows as asked for, within its bounds.
pub proof fn scrolling_stays_in_bounds(at: u16, by: u16, max: u16)
    requires
        at <= max,
    ensures
        at + by <= max ==> scrolled_up(at, by, max) == at + by,
        at + by > max ==> scrolled_up(at, by, max) == max,
        by <= at ==> scrolled_down(at, by) == at - by,
        by > at ==> scrolled_down(at, by) == 0,
{
}

/// The picker opens on the microphone, with the current sources selected where they
/// are offered. A microphone that is not offered leaves "(none)" selected, and a source
/// of system audio that is not offered leaves "(auto)".
pub proof fn picker_opens_on_the_current_sources(
    inputs: Seq<Seq<char>>,
    outputs: Seq<Seq<char>>,
    mic_device: Seq<char>,
    sys_device: Seq<char>,
)
    ensures
        ({
            let pk = opened_picker(inputs, outputs, mic_device, sys_device);
            &&& pk.wf()
            &&& pk.mic == audio::mic_choices(inputs)
            &&& pk.sys == audio::sys_choices(inputs, outputs)
            &&& pk.focus == 0
            &&& pk.mic.contains(mic_device) ==> pk.mic[pk.mic_sel] == mic_device
            &&& !pk.mic.contains(mic_device) ==> pk.mic[pk.mic_sel] == "(none)"@
            &&& pk.sys.contains(sys_device) ==> pk.sys[pk.sys_sel] == sys_device
            &&& !pk.sys.contains(sys_device) ==> pk.sys[pk.sys_sel] == "(auto)"@
        }),
{
    audio::choices_are_complete(inputs, outputs);
    let mic = audio::mic_choices(inputs);
    let sys = audio::sys_choices(inputs, outputs);
    text::lemma_first_index(mic, mic_device);
    text::lemma_first_index(sys, sys_device);
    text::lemma_first_index(sys, "(auto)"@);
    assert(sys.contains("(auto)"@)) by {
        assert(sys[1] == "(auto)"@);
    }
    if let Some(i) = text::first_index(mic, mic_device) {
        assert(mic[i] == mic_device);
    }
    if let Some(i) = text::first_index(sys, sys_device) {
        assert(sys[i] == sys_device);
    }
}

/// Other sources count once they are open: a switch that failed changes nothing, and
/// a toggle that failed leaves the sources and says why.
pub proof fn failed_switches_keep_the_sources(
    m: SessionModel,
    mic: Seq<char>,
    sys: Seq<char>,
    name: Seq<char>,
)
    ensures
        after_switch(m, mic, sys, None) == m,
        after_switch(m, mic, sys, Some(name)) == (SessionModel {
            input_name: name,
            mic_device: mic,
            sys_device: sys,
            ..m
        }),
        after_toggle(m, sys, Err(name)) == (SessionModel {
            saved_note: Some("system audio: "@ + name),
            ..m
        }),
        after_toggle(m, sys, Ok(name)) == (SessionModel {
            input_name: name,
            sys_device: sys,
            saved_note: Some("system audio: "@ + name),
            ..m
        }),
{
}

/// A session starts empty, recording, at the tail, with the sources and the language
/// that it was set up with; the translator is loading where it is started.
pub proof fn how_a_session_starts(setup: Setup)
    ensures
        ({
            let m = started(setup);
            &&& m.wf()
            &&& m.lines.len() == 0
            &&& !m.paused
            &&& !m.show_help
            &&& m.picker is None
            &&& m.saved_note is None
            &&& m.needs_redraw
            &&& m.scroll_up == 0
            &&& m.language == setup.language@
            &&& m.input_name == setup.input_name@
            &&& m.mic_device == setup.mic_device@
            &&& setup.sys_device matches Some(d) ==> m.sys_device == d@
            &&& setup.sys_device is None ==> m.sys_device == "(none)"@
            &&& setup.model_file matches Some(f) ==> m.model_name == f@
            &&& m.single_column == setup.single_column
            &&& setup.translating ==> m.translator_status == TranslatorStatus::Loading
            &&& !setup.translating ==> m.translator_status == TranslatorStatus::Failed
            &&& m.draft == (DraftState { active: false, speech_ms: 0, elapsed_ms: 0 })
        }),
        MIN_MODEL_BYTES == 10_000_000,
{
}

} // verus!
