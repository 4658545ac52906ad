//! Audio sources: which ones there are, which ones are opened, and how two of them
//! become one stream.
use crate::text::{self, contains, ends_with, position, same, strip_prefix};
use crate::translate;
use crate::vad::TARGET_SR;
use std::collections::VecDeque;
use vstd::prelude::*;
use vstd::string::*;

verus! {

/// Prefix of loopback (system-audio) sources, which tells them from input devices
/// that happen to share the same name.
pub const LOOPBACK_PREFIX: &'static str = "loopback:";

/// Cap on the secondary buffer: one second at the target rate, so a drifting or
/// silent secondary stream cannot grow without bound.
pub const SECONDARY_CAP_SAMPLES: usize = 16_000;

/// The systems that differ in how system audio is captured.
#[derive(Clone, Copy, Debug, PartialEq, Eq, Structural)]
pub enum Platform {
    Windows,
    MacOs,
    Linux,
    Other,
}

/// The first input whose name holds the word in any case, as a list of at most one.
pub open spec fn driver_hit(inputs: Seq<Seq<char>>, word: Seq<char>) -> Seq<Seq<char>>
    decreases inputs.len(),
{
    if inputs.len() == 0 {
        Seq::empty()
    } else {
        let before = driver_hit(inputs.drop_last(), word);
        if before.len() == 0 && text::occurs(text::lowercase(inputs.last()), word) {
            seq![inputs.last()]
        } else {
            before
        }
    }
}

/// The inputs that are monitors of an output.
pub open spec fn monitors(inputs: Seq<Seq<char>>) -> Seq<Seq<char>>
    decreases inputs.len(),
{
    if inputs.len() == 0 {
        Seq::empty()
    } else {
        let before = monitors(inputs.drop_last());
        if text::ends(inputs.last(), ".monitor"@) {
            before.push(inputs.last())
        } else {
            before
        }
    }
}

/// The default output as a loopback source, as a list of at most one.
pub open spec fn loopback_of(default_output: Option<Seq<char>>) -> Seq<Seq<char>> {
    match default_output {
        Some(name) => seq![LOOPBACK_PREFIX@ + name],
        None => Seq::empty(),
    }
}

/// The system-audio sources that are tried, in order: the default output where the
/// system can tap it, then a virtual driver on macOS, or the monitors on Linux.
pub open spec fn candidates(
    platform: Platform,
    default_output: Option<Seq<char>>,
    inputs: Seq<Seq<char>>,
) -> Seq<Seq<char>> {
    match platform {
        Platform::Windows => loopback_of(default_output),
        Platform::MacOs => loopback_of(default_output) + driver_hit(inputs, "blackhole"@)
            + driver_hit(inputs, "soundflower"@) + driver_hit(inputs, "loopback audio"@)
            + driver_hit(inputs, "vb-cable"@),
        Platform::Linux => monitors(inputs),
        Platform::Other => Seq::empty(),
    }
}

fn push_driver(out: &mut Vec<String>, inputs: &Vec<String>, word: &str)
    ensures
        text::strs(final(out)@) == text::strs(old(out)@) + driver_hit(text::strs(inputs@), word@),
{
    let ghost all = text::strs(inputs@);
    let mut i: usize = 0;
    while i < inputs.len()
        invariant
            i <= inputs@.len(),
            all == text::strs(inputs@),
            out@ == old(out)@,
            driver_hit(all.take(i as int), word@).len() == 0,
        decreases inputs@.len() - i,
    {
        assert(all.take(i + 1).drop_last() =~= all.take(i as int));
        let lower = inputs[i].as_str().to_lowercase();
        if contains(lower.as_str(), word) {
            out.push(inputs[i].clone());
            proof {
                lemma_driver_hit_stays(all, word@, i + 1);
            }
            assert(text::strs(out@) =~= text::strs(old(out)@) + driver_hit(all, word@));
            return;
        }
        i += 1;
    }
    assert(all.take(inputs@.len() as int) =~= all);
    assert(text::strs(out@) =~= text::strs(old(out)@) + driver_hit(all, word@));
}

proof fn lemma_driver_hit_stays(inputs: Seq<Seq<char>>, word: Seq<char>, n: int)
    requires
        0 <= n <= inputs.len(),
        driver_hit(inputs.take(n), word).len() > 0,
    ensures
        driver_hit(inputs, word) == driver_hit(inputs.take(n), word),
    decreases inputs.len(),
{
    if n < inputs.len() {
        assert(inputs.drop_last().take(n) =~= inputs.take(n));
        lemma_driver_hit_stays(inputs.drop_last(), word, n);
    } else {
        assert(inputs.take(n) =~= inputs);
    }
}

/// Best-effort auto-detection of system-audio sources, ordered by preference. They
/// are tried in order: the preferred native path can fail when it is opened, while a
/// later one still works.
///
/// - Windows: the default output device, as a loopback.
/// - macOS: the default output device, then an installed virtual driver (BlackHole,
///   Soundflower, Loopback Audio, VB-Cable).
/// - Linux: every `*.monitor` input source.
pub fn detect_system_audio_candidates(
    platform: Platform,
    default_output: Option<&str>,
    inputs: &Vec<String>,
) -> (r: Vec<String>)
    ensures
        text::strs(r@) == candidates(platform, text::opt_slice(default_output), text::strs(inputs@)),
{
    let mut out: Vec<String> = Vec::new();
    assert(text::strs(out@) =~= Seq::<Seq<char>>::empty());
    if platform == Platform::Windows || platform == Platform::MacOs {
        if let Some(name) = default_output {
            let mut labeled = LOOPBACK_PREFIX.to_owned();
            labeled.append(name);
            out.push(labeled);
        }
        assert(text::strs(out@) =~= loopback_of(text::opt_slice(default_output)));
    }
    if platform == Platform::MacOs {
        push_driver(&mut out, inputs, "blackhole");
        push_driver(&mut out, inputs, "soundflower");
        push_driver(&mut out, inputs, "loopback audio");
        push_driver(&mut out, inputs, "vb-cable");
    }
    if platform == Platform::Linux {
        let ghost all = text::strs(inputs@);
        let mut i: usize = 0;
        while i < inputs.len()
            invariant
                i <= inputs@.len(),
                all == text::strs(inputs@),
                text::strs(out@) == monitors(all.take(i as int)),
            decreases inputs@.len() - i,
        {
            assert(all.take(i + 1).drop_last() =~= all.take(i as int));
            let ghost before = out@;
            if ends_with(inputs[i].as_str(), ".monitor") {
                out.push(inputs[i].clone());
                assert(text::strs(out@) =~= text::strs(before).push(all[i as int]));
            }
            i += 1;
        }
        assert(all.take(inputs@.len() as int) =~= all);
    }
    out
}

/// A list with a name added, unless it is there.
pub open spec fn with_name(list: Seq<Seq<char>>, name: Seq<char>) -> Seq<Seq<char>> {
    if list.contains(name) {
        list
    } else {
        list.push(name)
    }
}

/// A list with each of the names added in turn, behind a prefix, unless it is there.
pub open spec fn with_names(
    list: Seq<Seq<char>>,
    prefix: Seq<char>,
    names: Seq<Seq<char>>,
) -> Seq<Seq<char>>
    decreases names.len(),
{
    if names.len() == 0 {
        list
    } else {
        with_name(with_names(list, prefix, names.drop_last()), prefix + names.last())
    }
}

/// The choices for the microphone.
pub open spec fn mic_choices(inputs: Seq<Seq<char>>) -> Seq<Seq<char>> {
    with_names(seq!["(none)"@, "default"@], Seq::empty(), inputs)
}

/// The choices for system audio: the inputs, then the outputs as loopbacks.
pub open spec fn sys_choices(inputs: Seq<Seq<char>>, outputs: Seq<Seq<char>>) -> Seq<Seq<char>> {
    with_names(
        with_names(seq!["(none)"@, "(auto)"@], Seq::empty(), inputs),
        LOOPBACK_PREFIX@,
        outputs,
    )
}

fn add_name(list: &mut Vec<String>, name: String)
    ensures
        text::strs(final(list)@) == with_name(text::strs(old(list)@), name@),
{
    let ghost all = text::strs(list@);
    proof {
        crate::text::lemma_first_index(all, name@);
    }
    match position(list, name.as_str()) {
        Some(i) => {
            assert(all[i as int] == name@);
        },
        None => {
            list.push(name);
            assert(text::strs(list@) =~= all.push(name@));
        },
    }
}

fn add_names(list: &mut Vec<String>, prefix: &str, names: &Vec<String>)
    ensures
        text::strs(final(list)@) == with_names(text::strs(old(list)@), prefix@, text::strs(names@)),
{
    let ghost first = text::strs(list@);
    let ghost all = text::strs(names@);
    let mut i: usize = 0;
    while i < names.len()
        invariant
            i <= names@.len(),
            all == text::strs(names@),
            text::strs(list@) == with_names(first, prefix@, all.take(i as int)),
        decreases names@.len() - i,
    {
        assert(all.take(i + 1).drop_last() =~= all.take(i as int));
        let mut labeled = prefix.to_owned();
        labeled.append(names[i].as_str());
        add_name(list, labeled);
        i += 1;
    }
    assert(all.take(names@.len() as int) =~= all);
}

/// Splits the sources into the choices for the microphone and those for system
/// audio, each with a leading "(none)" that disables the slot. The system-audio list
/// also offers "(auto)", which stands for auto-detection, and the input devices,
/// since a virtual driver or a `*.monitor` source is one of these.
pub fn list_devices_split(inputs: &Vec<String>, outputs: &Vec<String>) -> (r: (
    Vec<String>,
    Vec<String>,
))
    ensures
        text::strs(r.0@) == mic_choices(text::strs(inputs@)),
        text::strs(r.1@) == sys_choices(text::strs(inputs@), text::strs(outputs@)),
{
    let mut mic: Vec<String> = Vec::new();
    mic.push("(none)".to_owned());
    mic.push("default".to_owned());
    assert(text::strs(mic@) =~= seq!["(none)"@, "default"@]);
    let mut sys: Vec<String> = Vec::new();
    sys.push("(none)".to_owned());
    sys.push("(auto)".to_owned());
    assert(text::strs(sys@) =~= seq!["(none)"@, "(auto)"@]);
    proof {
        assert(""@ =~= Seq::<char>::empty()) by {
            reveal_strlit("");
        }
    }
    add_names(&mut mic, "", inputs);
    add_names(&mut sys, "", inputs);
    add_names(&mut sys, LOOPBACK_PREFIX, outputs);
    (mic, sys)
}

/// What is said when auto-detection finds nothing.
pub open spec fn auto_detect_text(platform: Platform) -> Seq<char> {
    match platform {
        Platform::Windows =>
            "system-audio auto-detect failed: no default output device. Pick `[loopback] <speaker name>` explicitly from the picker."@,
        Platform::MacOs =>
            "system-audio auto-detect failed: no default output device to tap and no virtual audio driver (e.g. BlackHole) installed."@,
        Platform::Linux =>
            "system-audio auto-detect failed: no PulseAudio/PipeWire `*.monitor` source visible. Check that PulseAudio/PipeWire is running, or pick a monitor source explicitly from the picker."@,
        Platform::Other =>
            "system-audio auto-detect is not supported on this platform — pick a device explicitly from the picker."@,
    }
}

/// What is said when auto-detection finds nothing.
pub fn auto_detect_error_message(platform: Platform) -> (r: &'static str)
    ensures
        r@ == auto_detect_text(platform),
{
    match platform {
        Platform::Windows =>
            "system-audio auto-detect failed: no default output device. Pick `[loopback] <speaker name>` explicitly from the picker.",
        Platform::MacOs =>
            "system-audio auto-detect failed: no default output device to tap and no virtual audio driver (e.g. BlackHole) installed.",
        Platform::Linux =>
            "system-audio auto-detect failed: no PulseAudio/PipeWire `*.monitor` source visible. Check that PulseAudio/PipeWire is running, or pick a monitor source explicitly from the picker.",
        Platform::Other =>
            "system-audio auto-detect is not supported on this platform — pick a device explicitly from the picker.",
    }
}

/// What is wanted of the secondary source.
pub enum SecondaryRequest {
    /// Whatever is detected.
    Auto,
    /// This device.
    Named(String),
    /// Nothing.
    Absent,
}

/// Whether a choice stands for auto-detection.
pub open spec fn is_auto(s: Seq<char>) -> bool {
    s == "(auto)"@ || s == "auto"@
}

/// Whether a choice stands for no device.
pub open spec fn is_none_choice(s: Seq<char>) -> bool {
    s.len() == 0 || s == "(none)"@
}

/// What a choice for the secondary source asks for.
pub fn secondary_request(secondary: Option<&str>) -> (r: SecondaryRequest)
    ensures
        match r {
            SecondaryRequest::Auto => secondary matches Some(s) && is_auto(s@),
            SecondaryRequest::Named(n) => secondary matches Some(s) && !is_auto(s@)
                && !is_none_choice(s@) && n@ == s@,
            SecondaryRequest::Absent => secondary matches Some(s) ==> !is_auto(s@)
                && is_none_choice(s@),
        },
{
    match secondary {
        Some(s) => {
            if same(s, "(auto)") || same(s, "auto") {
                SecondaryRequest::Auto
            } else if !s.is_empty() && !same(s, "(none)") {
                SecondaryRequest::Named(s.to_owned())
            } else {
                SecondaryRequest::Absent
            }
        },
        None => SecondaryRequest::Absent,
    }
}

/// What is to be opened.
pub enum CapturePlan {
    /// The primary source alone.
    Primary(String),
    /// The first of the candidates that opens, alone.
    Secondary(Vec<String>),
    /// The primary source, mixed with the first of the candidates that opens.
    Mixed { primary: String, candidates: Vec<String> },
}

/// The sources that are tried for the secondary slot.
pub open spec fn wanted_candidates(
    request: SecondaryRequest,
    detected: Seq<Seq<char>>,
) -> Seq<Seq<char>> {
    match request {
        SecondaryRequest::Auto => detected,
        SecondaryRequest::Named(n) => seq![n@],
        SecondaryRequest::Absent => Seq::empty(),
    }
}

/// Decides what is opened. The primary source drives the output cadence; without
/// one, the secondary source stands alone, since there is nothing to mix it with.
pub fn plan_capture(
    platform: Platform,
    primary: &str,
    request: SecondaryRequest,
    detected: Vec<String>,
) -> (r: Result<CapturePlan, String>)
    ensures
        ({
            let wanted = wanted_candidates(request, text::strs(detected@));
            let active = !is_none_choice(primary@);
            match r {
                Ok(CapturePlan::Primary(p)) => active && request is Absent && p@ == primary@,
                Ok(CapturePlan::Secondary(c)) => !active && wanted.len() > 0 && text::strs(c@)
                    == wanted,
                Ok(CapturePlan::Mixed { primary: p, candidates: c }) => active && wanted.len() > 0
                    && p@ == primary@ && text::strs(c@) == wanted,
                Err(e) => wanted.len() == 0 && if request is Auto {
                    e@ == auto_detect_text(platform)
                } else {
                    !active && e@ == "no audio source selected"@
                },
            }
        }),
{
    let active = !primary.is_empty() && !same(primary, "(none)");
    let candidates = match request {
        SecondaryRequest::Auto => {
            if detected.len() == 0 {
                return Err(auto_detect_error_message(platform).to_owned());
            }
            detected
        },
        SecondaryRequest::Named(n) => {
            let mut one: Vec<String> = Vec::new();
            one.push(n);
            assert(text::strs(one@) =~= seq![n@]);
            one
        },
        SecondaryRequest::Absent => {
            if !active {
                return Err("no audio source selected".to_owned());
            }
            return Ok(CapturePlan::Primary(primary.to_owned()));
        },
    };
    if active {
        Ok(CapturePlan::Mixed { primary: primary.to_owned(), candidates })
    } else {
        Ok(CapturePlan::Secondary(candidates))
    }
}

/// The name of two sources that are mixed.
pub fn mixed_label(primary: &str, secondary: &str) -> (r: String)
    ensures
        r@ == primary@ + " + "@ + secondary@,
{
    let mut r = primary.to_owned();
    r.append(" + ");
    r.append(secondary);
    r
}

/// An error on opening a source: what went wrong, and what the user can do.
pub struct OpenError {
    pub base: String,
    pub hint: Option<&'static str>,
}

/// What the user can do on macOS when no system audio opens.
pub const MACOS_HINT: &'static str =
    "opening system audio failed — on macOS 14.2+ grant your terminal app permission under System Settings → Privacy & Security → Screen & System Audio Recording; on older macOS install BlackHole (https://github.com/ExistentialAudio/BlackHole)";

/// The search for a candidate that opens: those before `next` failed, the last of
/// them with `last_err`.
pub struct CandidateSearch {
    candidates: Vec<String>,
    next: usize,
    last_err: Option<String>,
}

impl CandidateSearch {
    /// The candidates, in the order in which they are tried.
    pub closed spec fn list(&self) -> Seq<Seq<char>> {
        text::strs(self.candidates@)
    }

    /// How many of them failed.
    pub closed spec fn tried(&self) -> nat {
        self.next as nat
    }

    /// The error of the last one that failed.
    pub closed spec fn error_text(&self) -> Option<Seq<char>> {
        text::opt_str(self.last_err)
    }

    /// As many errors as tries.
    pub closed spec fn wf(&self) -> bool {
        self.next <= self.candidates@.len() && (self.last_err is Some <==> self.next > 0)
    }

    pub fn new(candidates: Vec<String>) -> (r: Self)
        ensures
            r.wf(),
            r.list() == text::strs(candidates@),
            r.tried() == 0,
            r.error_text() is None,
    {
        CandidateSearch { candidates, next: 0, last_err: None }
    }

    /// The candidate to try, and whether it is a fallback for one that failed.
    pub fn current(&self) -> (r: Option<(&str, bool)>)
        requires
            self.wf(),
        ensures
            match r {
                Some((name, fallback)) => self.tried() < self.list().len() && name@
                    == self.list()[self.tried() as int] && fallback == (self.tried() > 0),
                None => self.tried() == self.list().len(),
            },
    {
        if self.next < self.candidates.len() {
            assert(self.list()[self.next as int] == self.candidates@[self.next as int]@);
            Some((self.candidates[self.next].as_str(), self.last_err.is_some()))
        } else {
            None
        }
    }

    /// The current candidate did not open.
    pub fn failed(&mut self, error: String)
        requires
            old(self).wf(),
            old(self).tried() < old(self).list().len(),
        ensures
            final(self).wf(),
            final(self).list() == old(self).list(),
            final(self).tried() == old(self).tried() + 1,
            final(self).error_text() == Some(error@),
    {
        let count: usize = self.candidates.len();
        assert(self.next < count);
        self.last_err = Some(error);
        self.next += 1;
    }

    /// What is said when no candidate opened: the error of the last one.
    pub fn give_up(self, platform: Platform) -> (r: OpenError)
        requires
            self.wf(),
        ensures
            r.base@ == match self.error_text() {
                Some(e) => e,
                None => auto_detect_text(platform),
            },
            r.hint is Some <==> platform == Platform::MacOs,
            r.hint matches Some(h) ==> h@ == MACOS_HINT@,
    {
        let base = match self.last_err {
            Some(e) => e,
            None => auto_detect_error_message(platform).to_owned(),
        };
        let hint = if platform == Platform::MacOs {
            Some(MACOS_HINT)
        } else {
            None
        };
        OpenError { base, hint }
    }
}

/// The device that a choice stands for.
pub enum StreamTarget {
    /// The output device with this name, as a loopback.
    Loopback(String),
    /// The default input device.
    DefaultInput,
    /// The input device with this name.
    Input(String),
}

/// The device that a choice stands for.
pub fn stream_target(wanted: &str) -> (r: StreamTarget)
    ensures
        match r {
            StreamTarget::Loopback(n) => text::begins(wanted@, LOOPBACK_PREFIX@) && n@ == wanted@.skip(
                LOOPBACK_PREFIX@.len() as int,
            ),
            StreamTarget::DefaultInput => !text::begins(wanted@, LOOPBACK_PREFIX@) && wanted@
                == "default"@,
            StreamTarget::Input(n) => !text::begins(wanted@, LOOPBACK_PREFIX@) && wanted@ != "default"@
                && n@ == wanted@,
        },
{
    match strip_prefix(wanted, LOOPBACK_PREFIX) {
        Some(name) => StreamTarget::Loopback(name),
        None => if same(wanted, "default") {
            StreamTarget::DefaultInput
        } else {
            StreamTarget::Input(wanted.to_owned())
        },
    }
}

/// What is said when there is no such device.
pub fn missing_device_error(target: &StreamTarget) -> (r: String)
    ensures
        r@ == match *target {
            StreamTarget::Loopback(n) => "output device not found: "@ + n@,
            StreamTarget::DefaultInput => "no default input device"@,
            StreamTarget::Input(n) => "input device not found: "@ + n@,
        },
{
    match target {
        StreamTarget::Loopback(n) => {
            let mut r = "output device not found: ".to_owned();
            r.append(n.as_str());
            r
        },
        StreamTarget::DefaultInput => "no default input device".to_owned(),
        StreamTarget::Input(n) => {
            let mut r = "input device not found: ".to_owned();
            r.append(n.as_str());
            r
        },
    }
}

/// Whether a device has this name; some devices have none.
pub open spec fn is_named(device: Option<String>, name: Seq<char>) -> bool {
    device matches Some(n) && n@ == name
}

/// The first device with a name.
pub fn find_device(devices: &Vec<Option<String>>, name: &str) -> (r: Option<usize>)
    ensures
        match r {
            Some(i) => i < devices@.len() && is_named(devices@[i as int], name@) && forall|j: int|
                0 <= j < i ==> !is_named(#[trigger] devices@[j], name@),
            None => forall|j: int|
                0 <= j < devices@.len() ==> !is_named(#[trigger] devices@[j], name@),
        },
{
    let mut i: usize = 0;
    while i < devices.len()
        invariant
            i <= devices@.len(),
            forall|j: int| 0 <= j < i ==> !is_named(#[trigger] devices@[j], name@),
        decreases devices@.len() - i,
    {
        if let Some(n) = &devices[i] {
            if same(n.as_str(), name) {
                return Some(i);
            }
        }
        i += 1;
    }
    None
}

/// The name under which a stream is shown.
pub fn stream_label(bare_name: Option<&str>, is_loopback: bool) -> (r: String)
    ensures
        ({
            let bare = match bare_name {
                Some(n) => n@,
                None => "unknown"@,
            };
            r@ == if is_loopback {
                LOOPBACK_PREFIX@ + bare
            } else {
                bare
            }
        }),
{
    let bare = match bare_name {
        Some(n) => n,
        None => "unknown",
    };
    if is_loopback {
        let mut r = LOOPBACK_PREFIX.to_owned();
        r.append(bare);
        r
    } else {
        bare.to_owned()
    }
}

/// Samples of the secondary source that wait to be mixed into the primary one.
pub struct MixBuffer<T> {
    buf: VecDeque<T>,
}

impl<T> View for MixBuffer<T> {
    type V = Seq<T>;

    closed spec fn view(&self) -> Seq<T> {
        self.buf@
    }
}

impl<T: Copy> MixBuffer<T> {
    pub fn new() -> (r: Self)
        ensures
            r@ == Seq::<T>::empty(),
    {
        MixBuffer { buf: VecDeque::new() }
    }

    /// Takes samples of the secondary source. The oldest ones leave where the buffer
    /// exceeds its cap.
    pub fn push(&mut self, chunk: &Vec<T>)
        ensures
            final(self)@ == translate::last_of(old(self)@ + chunk@, SECONDARY_CAP_SAMPLES as nat),
    {
        let ghost all = self@ + chunk@;
        let mut i: usize = 0;
        assert(old(self)@ + chunk@.take(0) =~= old(self)@);
        while i < chunk.len()
            invariant
                i <= chunk@.len(),
                self@ == old(self)@ + chunk@.take(i as int),
            decreases chunk@.len() - i,
        {
            self.buf.push_back(chunk[i]);
            assert(old(self)@ + chunk@.take(i + 1) =~= (old(self)@ + chunk@.take(i as int)).push(
                chunk@[i as int],
            ));
            i += 1;
        }
        assert(chunk@.take(chunk@.len() as int) =~= chunk@);
        let ghost mut gone: int = 0;
        assert(all.skip(0) =~= all);
        while self.buf.len() > SECONDARY_CAP_SAMPLES
            invariant
                0 <= gone <= all.len(),
                self@ == all.skip(gone),
                gone > 0 ==> self@.len() >= SECONDARY_CAP_SAMPLES,
            decreases self.buf@.len(),
        {
            let ghost before = self@;
            let _ = self.buf.pop_front();
            assert(self@ =~= before.skip(1));
            assert(before.skip(1) =~= all.skip(gone + 1));
            proof {
                gone = gone + 1;
            }
        }
        assert(self@ =~= translate::last_of(all, SECONDARY_CAP_SAMPLES as nat));
    }

    /// Mixes the buffered samples into a chunk of the primary source, one by one.
    /// Where the buffer runs dry the primary samples stay as they are.
    pub fn mix_into<F: Fn(T, T) -> T>(&mut self, chunk: &mut Vec<T>, mix: F)
        requires
            forall|a: T, b: T| #[trigger] call_requires(mix, (a, b)),
        ensures
            final(chunk)@.len() == old(chunk)@.len(),
            forall|i: int|
                0 <= i < old(chunk)@.len() && i < old(self)@.len() ==> call_ensures(
                    mix,
                    (old(chunk)@[i], old(self)@[i]),
                    #[trigger] final(chunk)@[i],
                ),
            forall|i: int|
                old(self)@.len() <= i < old(chunk)@.len() ==> #[trigger] final(chunk)@[i] == old(
                    chunk,
                )@[i],
            final(self)@ == if old(chunk)@.len() < old(self)@.len() {
                old(self)@.skip(old(chunk)@.len() as int)
            } else {
                Seq::empty()
            },
    {
        let ghost primary = chunk@;
        let ghost secondary = self@;
        let n: usize = chunk.len();
        let mut i: usize = 0;
        assert(secondary.skip(0) =~= secondary);
        while i < n && self.buf.len() > 0
            invariant
                i <= n,
                n == primary.len(),
                chunk@.len() == n,
                i <= secondary.len(),
                self@ == secondary.skip(i as int),
                forall|a: T, b: T| #[trigger] call_requires(mix, (a, b)),
                forall|k: int|
                    0 <= k < i ==> call_ensures(
                        mix,
                        (primary[k], secondary[k]),
                        #[trigger] chunk@[k],
                    ),
                forall|k: int| i <= k < n ==> #[trigger] chunk@[k] == primary[k],
            decreases n - i,
        {
            match self.buf.pop_front() {
                Some(s) => {
                    assert(s == secondary[i as int]);
                    let mixed = mix(chunk[i], s);
                    chunk.set(i, mixed);
                    assert(self@ =~= secondary.skip(i + 1));
                },
                None => {
                    assert(false);
                },
            }
            i += 1;
        }
        assert(self@ =~= if primary.len() < secondary.len() {
            secondary.skip(primary.len() as int)
        } else {
            Seq::empty()
        });
    }
}

/// Whether a stream with this sample rate has to be resampled.
pub fn needs_resampling(input_sr: u32) -> (r: bool)
    ensures
        r == (input_sr != TARGET_SR),
{
    input_sr != TARGET_SR
}

/// A stream on its way to the target rate: samples of one channel that wait to be
/// handed on, and how many chunks were lost behind it.
pub struct ProcState<T> {
    channels: usize,
    mono_buf: Vec<T>,
    /// Chunks discarded because the consumer was not fast enough.
    dropped_chunks: u32,
}

/// What a mixdown of one frame may give.
pub open spec fn mixdown_gives<T, F: Fn(&[T]) -> T>(mixdown: F, frame: Seq<T>, out: T) -> bool {
    exists|s: &[T]| s@ == frame && #[trigger] call_ensures(mixdown, (s,), out)
}

impl<T: Copy> ProcState<T> {
    /// How many channels come in.
    pub closed spec fn channels(&self) -> nat {
        self.channels as nat
    }

    /// The samples that wait.
    pub closed spec fn waiting(&self) -> Seq<T> {
        self.mono_buf@
    }

    /// The chunks lost so far.
    pub closed spec fn dropped(&self) -> nat {
        self.dropped_chunks as nat
    }

    pub fn new(channels: usize) -> (r: Self)
        ensures
            r.channels() == channels,
            r.waiting() == Seq::<T>::empty(),
            r.dropped() == 0,
    {
        ProcState { channels, mono_buf: Vec::new(), dropped_chunks: 0 }
    }

    /// Takes interleaved samples: one channel as it is, several by the mixdown of
    /// each whole frame. Samples behind the last whole frame are left out.
    pub fn push<F: Fn(&[T]) -> T>(&mut self, data: &Vec<T>, mixdown: F)
        requires
            forall|s: &[T]| s@.len() == old(self).channels() ==> #[trigger] call_requires(mixdown, (s,)),
        ensures
            final(self).channels() == old(self).channels(),
            final(self).dropped() == old(self).dropped(),
            old(self).channels() <= 1 ==> final(self).waiting() == old(self).waiting() + data@,
            old(self).channels() > 1 ==> {
                let ch = old(self).channels() as int;
                let n0 = old(self).waiting().len() as int;
                let out = final(self).waiting();
                &&& out.len() == n0 + data@.len() as int / ch
                &&& out.take(n0) == old(self).waiting()
                &&& forall|k: int|
                    0 <= k < data@.len() as int / ch ==> mixdown_gives(
                        mixdown,
                        data@.subrange(k * ch, k * ch + ch),
                        #[trigger] out[n0 + k],
                    )
            },
    {
        let ghost first = self.mono_buf@;
        if self.channels <= 1 {
            let mut i: usize = 0;
            assert(first + data@.take(0) =~= first);
            while i < data.len()
                invariant
                    i <= data@.len(),
                    self.mono_buf@ == first + data@.take(i as int),
                    self.channels == old(self).channels,
                    self.dropped_chunks == old(self).dropped_chunks,
                decreases data@.len() - i,
            {
                self.mono_buf.push(data[i]);
                assert(first + data@.take(i + 1) =~= (first + data@.take(i as int)).push(
                    data@[i as int],
                ));
                i += 1;
            }
            assert(data@.take(data@.len() as int) =~= data@);
        } else {
            let ch: usize = self.channels;
            let total: usize = data.len();
            let ghost n0 = first.len() as int;
            let ghost mut k: int = 0;
            let mut at: usize = 0;
            while total - at >= ch
                invariant
                    ch > 1,
                    ch == self.channels,
                    self.channels == old(self).channels,
                    self.dropped_chunks == old(self).dropped_chunks,
                    total == data@.len(),
                    at <= total,
                    0 <= k,
                    at == k * ch,
                    n0 == first.len(),
                    self.mono_buf@.len() == n0 + k,
                    self.mono_buf@.take(n0) == first,
                    forall|s: &[T]|
                        s@.len() == ch ==> #[trigger] call_requires(mixdown, (s,)),
                    forall|j: int|
                        0 <= j < k ==> mixdown_gives(
                            mixdown,
                            data@.subrange(j * ch, j * ch + ch),
                            #[trigger] self.mono_buf@[n0 + j],
                        ),
                decreases total - at,
            {
                let ghost before = self.mono_buf@;
                let frame = vstd::slice::slice_subrange(data.as_slice(), at, at + ch);
                let s = mixdown(frame);
                self.mono_buf.push(s);
                assert(mixdown_gives(mixdown, data@.subrange(k * ch, k * ch + ch), s));
                assert(self.mono_buf@.take(n0) =~= before.take(n0));
                assert forall|j: int| 0 <= j < k + 1 implies mixdown_gives(
                    mixdown,
                    data@.subrange(j * ch, j * ch + ch),
                    #[trigger] self.mono_buf@[n0 + j],
                ) by {
                    if j < k {
                        assert(self.mono_buf@[n0 + j] == before[n0 + j]);
                    }
                }
                assert((k + 1) * ch == k * ch + ch) by (nonlinear_arith);
                proof {
                    k = k + 1;
                }
                at += ch;
            }
            assert(total as int / ch as int == k) by (nonlinear_arith)
                requires
                    k * ch <= total < k * ch + ch,
                    ch > 1,
                    0 <= k,
            ;
        }
    }

    /// The next block of samples, as soon as there are enough of them.
    pub fn take_block(&mut self, size: usize) -> (r: Option<Vec<T>>)
        requires
            size > 0,
        ensures
            final(self).channels() == old(self).channels(),
            final(self).dropped() == old(self).dropped(),
            match r {
                Some(b) => old(self).waiting().len() >= size && b@ == old(self).waiting().take(
                    size as int,
                ) && final(self).waiting() == old(self).waiting().skip(size as int),
                None => old(self).waiting().len() < size && final(self).waiting() == old(
                    self,
                ).waiting(),
            },
    {
        if self.mono_buf.len() < size {
            return None;
        }
        let mut block = self.mono_buf.split_off(size);
        std::mem::swap(&mut block, &mut self.mono_buf);
        assert(block@ =~= old(self).waiting().take(size as int));
        assert(self.mono_buf@ =~= old(self).waiting().skip(size as int));
        Some(block)
    }

    /// All samples that wait, if there are any.
    pub fn take_all(&mut self) -> (r: Option<Vec<T>>)
        ensures
            final(self).channels() == old(self).channels(),
            final(self).dropped() == old(self).dropped(),
            final(self).waiting() == Seq::<T>::empty(),
            match r {
                Some(b) => b@.len() > 0 && b@ == old(self).waiting(),
                None => old(self).waiting().len() == 0,
            },
    {
        if self.mono_buf.len() == 0 {
            assert(self.mono_buf@ =~= Seq::<T>::empty());
            return None;
        }
        let mut block: Vec<T> = Vec::new();
        std::mem::swap(&mut block, &mut self.mono_buf);
        Some(block)
    }

    /// Records dropped chunks. Says whether to warn: at the first one, and whenever
    /// another hundred is full, so a stalled pipeline does not flood the log.
    pub fn note_dropped(&mut self, n: u32) -> (warn: bool)
        requires
            old(self).dropped() + n <= u32::MAX,
        ensures
            final(self).channels() == old(self).channels(),
            final(self).waiting() == old(self).waiting(),
            final(self).dropped() == old(self).dropped() + n,
            warn == (old(self).dropped() == 0 || final(self).dropped() / 100 > old(self).dropped()
                / 100),
    {
        let before: u32 = self.dropped_chunks;
        self.dropped_chunks += n;
        before == 0 || self.dropped_chunks / 100 > before / 100
    }

    /// How many chunks were lost.
    pub fn dropped_chunks(&self) -> (r: u32)
        ensures
            r == self.dropped(),
    {
        self.dropped_chunks
    }
}

/// Adding names keeps what was there, in its place, adds every name, and brings in
/// no duplicates.
pub proof fn names_are_added_once(
    list: Seq<Seq<char>>,
    prefix: Seq<char>,
    names: Seq<Seq<char>>,
)
    requires
        list.no_duplicates(),
    ensures
        with_names(list, prefix, names).no_duplicates(),
        list.len() <= with_names(list, prefix, names).len(),
        with_names(list, prefix, names).take(list.len() as int) == list,
        forall|i: int|
            0 <= i < names.len() ==> with_names(list, prefix, names).contains(
                prefix + #[trigger] names[i],
            ),
    decreases names.len(),
{
    if names.len() > 0 {
        let before = names.drop_last();
        names_are_added_once(list, prefix, before);
        let mid = with_names(list, prefix, before);
        let all = with_names(list, prefix, names);
        assert(all.take(list.len() as int) =~= mid.take(list.len() as int));
        assert forall|i: int| 0 <= i < names.len() implies all.contains(
            prefix + #[trigger] names[i],
        ) by {
            if i < before.len() {
                assert(before[i] == names[i]);
                let k = choose|k: int| 0 <= k < mid.len() && mid[k] == prefix + before[i];
                assert(all[k] == prefix + names[i]);
            } else if !mid.contains(prefix + names[i]) {
                assert(all[all.len() - 1] == prefix + names[i]);
            }
        }
    } else {
        assert(list.take(list.len() as int) =~= list);
    }
}

/// The picker offers each source once: "(none)" first, then the standing choice of
/// the column, and behind them every device. System audio offers every input, and
/// every output as a loopback.
pub proof fn choices_are_complete(inputs: Seq<Seq<char>>, outputs: Seq<Seq<char>>)
    ensures
        mic_choices(inputs).no_duplicates(),
        sys_choices(inputs, outputs).no_duplicates(),
        mic_choices(inputs).len() >= 2,
        mic_choices(inputs)[0] == "(none)"@,
        mic_choices(inputs)[1] == "default"@,
        sys_choices(inputs, outputs).len() >= 2,
        sys_choices(inputs, outputs)[0] == "(none)"@,
        sys_choices(inputs, outputs)[1] == "(auto)"@,
        forall|i: int| 0 <= i < inputs.len() ==> mic_choices(inputs).contains(#[trigger] inputs[i]),
        forall|i: int|
            0 <= i < inputs.len() ==> sys_choices(inputs, outputs).contains(#[trigger] inputs[i]),
        forall|i: int|
            0 <= i < outputs.len() ==> sys_choices(inputs, outputs).contains(
                LOOPBACK_PREFIX@ + #[trigger] outputs[i],
            ),
{
    reveal_strlit("(none)");
    reveal_strlit("default");
    reveal_strlit("(auto)");
    let none = Seq::<char>::empty();
    let mic0 = seq!["(none)"@, "default"@];
    let sys0 = seq!["(none)"@, "(auto)"@];
    assert("(none)"@[0] != "default"@[0]);
    assert("(none)"@[1] != "(auto)"@[1]);
    names_are_added_once(mic0, none, inputs);
    names_are_added_once(sys0, none, inputs);
    let mid = with_names(sys0, none, inputs);
    names_are_added_once(mid, LOOPBACK_PREFIX@, outputs);
    let mic = mic_choices(inputs);
    let sys = sys_choices(inputs, outputs);
    assert(mic.take(2)[0] == mic0[0] && mic.take(2)[1] == mic0[1]);
    assert(mid.take(2)[0] == sys0[0] && mid.take(2)[1] == sys0[1]);
    assert(sys.take(mid.len() as int)[0] == mid[0] && sys.take(mid.len() as int)[1] == mid[1]);
    assert forall|i: int| 0 <= i < inputs.len() implies mic.contains(#[trigger] inputs[i])
        && sys.contains(inputs[i]) by {
        assert(none + inputs[i] =~= inputs[i]);
        let k = choose|k: int| 0 <= k < mid.len() && mid[k] == inputs[i];
        assert(sys.take(mid.len() as int)[k] == mid[k]);
        assert(sys[k] == inputs[i]);
    }
}

/// A loopback source that is offered leads back to the output that it was made of.
pub proof fn loopback_label_leads_back(name: Seq<char>)
    ensures
        text::begins(LOOPBACK_PREFIX@ + name, LOOPBACK_PREFIX@),
        (LOOPBACK_PREFIX@ + name).skip(LOOPBACK_PREFIX@.len() as int) == name,
{
    let s = LOOPBACK_PREFIX@ + name;
    assert(s.take(LOOPBACK_PREFIX@.len() as int) =~= LOOPBACK_PREFIX@);
    assert(s.skip(LOOPBACK_PREFIX@.len() as int) =~= name);
}

/// On Linux exactly the monitors are tried: each candidate is an input that ends in
/// `.monitor`, and each such input is a candidate.
pub proof fn monitors_are_candidates(inputs: Seq<Seq<char>>)
    ensures
        forall|c: Seq<char>|
            #![trigger monitors(inputs).contains(c)]
            monitors(inputs).contains(c) <==> inputs.contains(c) && text::ends(c, ".monitor"@),
    decreases inputs.len(),
{
    if inputs.len() > 0 {
        let before = inputs.drop_last();
        monitors_are_candidates(before);
        let m = monitors(inputs);
        let mb = monitors(before);
        assert forall|c: Seq<char>|
            #![trigger m.contains(c)]
            m.contains(c) <==> inputs.contains(c) && text::ends(c, ".monitor"@) by {
            assert(inputs.contains(c) <==> before.contains(c) || c == inputs.last()) by {
                if before.contains(c) {
                    let k = choose|k: int| 0 <= k < before.len() && before[k] == c;
                    assert(inputs[k] == c);
                }
                if inputs.contains(c) && c != inputs.last() {
                    let k = choose|k: int| 0 <= k < inputs.len() && inputs[k] == c;
                    assert(before[k] == c);
                }
                if c == inputs.last() {
                    assert(inputs[inputs.len() - 1] == c);
                }
            }
            assert(mb.contains(c) <==> before.contains(c) && text::ends(c, ".monitor"@));
            if text::ends(inputs.last(), ".monitor"@) {
                if mb.contains(c) {
                    let k = choose|k: int| 0 <= k < mb.len() && mb[k] == c;
                    assert(m[k] == c);
                }
                if m.contains(c) && c != inputs.last() {
                    let k = choose|k: int| 0 <= k < m.len() && m[k] == c;
                    assert(mb[k] == c);
                }
                assert(m[m.len() - 1] == inputs.last());
            }
        }
    }
}

/// A driver is the first input whose name holds the word, in lower case; where no
/// input does, there is none.
pub proof fn driver_is_the_first_match(inputs: Seq<Seq<char>>, word: Seq<char>)
    ensures
        driver_hit(inputs, word).len() <= 1,
        driver_hit(inputs, word).len() == 0 ==> forall|i: int|
            0 <= i < inputs.len() ==> !text::occurs(text::lowercase(#[trigger] inputs[i]), word),
        driver_hit(inputs, word).len() == 1 ==> exists|k: int|
            0 <= k < inputs.len() && #[trigger] inputs[k] == driver_hit(inputs, word)[0]
                && text::occurs(text::lowercase(inputs[k]), word) && (forall|i: int|
                0 <= i < k ==> !text::occurs(text::lowercase(#[trigger] inputs[i]), word)),
    decreases inputs.len(),
{
    if inputs.len() > 0 {
        let before = inputs.drop_last();
        driver_is_the_first_match(before, word);
        let n = inputs.len() - 1;
        if driver_hit(before, word).len() == 0 {
            assert forall|i: int| 0 <= i < n implies !text::occurs(
                text::lowercase(#[trigger] inputs[i]),
                word,
            ) by {
                assert(before[i] == inputs[i]);
            }
            assert(inputs[n] == inputs.last());
        } else {
            let k = choose|k: int|
                0 <= k < before.len() && #[trigger] before[k] == driver_hit(before, word)[0]
                    && text::occurs(text::lowercase(before[k]), word) && (forall|i: int|
                    0 <= i < k ==> !text::occurs(text::lowercase(#[trigger] before[i]), word));
            assert(inputs[k] == before[k]);
            assert forall|i: int| 0 <= i < k implies !text::occurs(
                text::lowercase(#[trigger] inputs[i]),
                word,
            ) by {
                assert(before[i] == inputs[i]);
            }
        }
    }
}

/// Which system-audio sources are tried, and in which order: on Windows the default
/// output; on macOS the default output and then each of the four known drivers that is
/// there; on Linux the inputs that end in `.monitor`, in their order; elsewhere none.
pub proof fn sources_by_platform(output: Option<Seq<char>>, inputs: Seq<Seq<char>>)
    ensures
        ({
            let tapped = match output {
                Some(name) => seq!["loopback:"@ + name],
                None => Seq::empty(),
            };
            &&& candidates(Platform::Windows, output, inputs) == tapped
            &&& candidates(Platform::MacOs, output, inputs) == tapped + driver_hit(
                inputs,
                "blackhole"@,
            ) + driver_hit(inputs, "soundflower"@) + driver_hit(inputs, "loopback audio"@)
                + driver_hit(inputs, "vb-cable"@)
            &&& candidates(Platform::Linux, output, inputs) == inputs.filter(
                |name: Seq<char>| text::ends(name, ".monitor"@),
            )
            &&& candidates(Platform::Other, output, inputs).len() == 0
        }),
{
    lemma_monitors_in_order(inputs);
}

proof fn lemma_monitors_in_order(inputs: Seq<Seq<char>>)
    ensures
        monitors(inputs) == inputs.filter(|name: Seq<char>| text::ends(name, ".monitor"@)),
    decreases inputs.len(),
{
    reveal(Seq::filter);
    if inputs.len() > 0 {
        lemma_monitors_in_order(inputs.drop_last());
    }
}

/// Names are added one by one, behind what is there, each unless it is there already;
/// nothing else is added.
pub proof fn names_are_added_in_order(
    list: Seq<Seq<char>>,
    prefix: Seq<char>,
    a: Seq<Seq<char>>,
    b: Seq<Seq<char>>,
    name: Seq<char>,
)
    ensures
        with_names(list, prefix, a + b) == with_names(with_names(list, prefix, a), prefix, b),
        list.contains(prefix + name) ==> with_names(list, prefix, seq![name]) == list,
        !list.contains(prefix + name) ==> with_names(list, prefix, seq![name]) == list.push(
            prefix + name,
        ),
        with_names(list, prefix, Seq::empty()) == list,
    decreases b.len(),
{
    let one = seq![name];
    assert(one.drop_last() =~= Seq::<Seq<char>>::empty());
    assert(with_names(list, prefix, one.drop_last()) == list);
    if b.len() == 0 {
        assert(a + b =~= a);
    } else {
        names_are_added_in_order(list, prefix, a, b.drop_last(), name);
        assert((a + b).drop_last() =~= a + b.drop_last());
    }
}

/// The choices come in order: the standing ones, then the inputs, and for system audio
/// the outputs behind them, marked as loopbacks.
pub proof fn choices_come_in_order(inputs: Seq<Seq<char>>, outputs: Seq<Seq<char>>)
    ensures
        mic_choices(inputs) == with_names(seq!["(none)"@, "default"@], Seq::empty(), inputs),
        sys_choices(inputs, outputs) == with_names(
            with_names(seq!["(none)"@, "(auto)"@], Seq::empty(), inputs),
            "loopback:"@,
            outputs,
        ),
{
}

/// What is said where nothing is detected tells what is missing on each platform.
pub proof fn detection_errors_by_platform()
    ensures
        text::begins(
            auto_detect_text(Platform::Windows),
            "system-audio auto-detect failed: no default output device. Pick"@,
        ),
        text::begins(
            auto_detect_text(Platform::MacOs),
            "system-audio auto-detect failed: no default output device to tap and no virtual audio driver"@,
        ),
        text::begins(
            auto_detect_text(Platform::Linux),
            "system-audio auto-detect failed: no PulseAudio/PipeWire `*.monitor` source visible."@,
        ),
        text::begins(
            auto_detect_text(Platform::Other),
            "system-audio auto-detect is not supported on this platform"@,
        ),
{
    reveal_strlit("system-audio auto-detect failed: no default output device. Pick `[loopback] <speaker name>` explicitly from the picker.");
    reveal_strlit("system-audio auto-detect failed: no default output device to tap and no virtual audio driver (e.g. BlackHole) installed.");
    reveal_strlit("system-audio auto-detect failed: no PulseAudio/PipeWire `*.monitor` source visible. Check that PulseAudio/PipeWire is running, or pick a monitor source explicitly from the picker.");
    reveal_strlit("system-audio auto-detect is not supported on this platform — pick a device explicitly from the picker.");
    reveal_strlit("system-audio auto-detect failed: no default output device. Pick");
    reveal_strlit("system-audio auto-detect failed: no default output device to tap and no virtual audio driver");
    reveal_strlit("system-audio auto-detect failed: no PulseAudio/PipeWire `*.monitor` source visible.");
    reveal_strlit("system-audio auto-detect is not supported on this platform");
    let a = "system-audio auto-detect failed: no default output device. Pick"@;
    assert(auto_detect_text(Platform::Windows).take(a.len() as int) =~= a);
    let b = "system-audio auto-detect failed: no default output device to tap and no virtual audio driver"@;
    assert(auto_detect_text(Platform::MacOs).take(b.len() as int) =~= b);
    let c = "system-audio auto-detect failed: no PulseAudio/PipeWire `*.monitor` source visible."@;
    assert(auto_detect_text(Platform::Linux).take(c.len() as int) =~= c);
    let d = "system-audio auto-detect is not supported on this platform"@;
    assert(auto_detect_text(Platform::Other).take(d.len() as int) =~= d);
}

/// What the standing choices mean, and what is tried for the secondary source: what
/// was detected where that was left open, the named device alone, or nothing.
pub proof fn what_choices_stand_for(s: Seq<char>, name: String, detected: Seq<Seq<char>>)
    ensures
        is_auto(s) <==> s == "(auto)"@ || s == "auto"@,
        is_none_choice(s) <==> s.len() == 0 || s == "(none)"@,
        wanted_candidates(SecondaryRequest::Auto, detected) == detected,
        wanted_candidates(SecondaryRequest::Named(name), detected) == seq![name@],
        wanted_candidates(SecondaryRequest::Absent, detected).len() == 0,
        SECONDARY_CAP_SAMPLES == 16_000,
{
}

} // verus!
