//! Cuts the audio stream into segments of speech.
//!
//! A detector decides for each frame of 30 ms whether somebody speaks; the
//! segmenter collects frames from the first speech to a pause, and hands out what
//! it collected.
use crate::msg::{self, DraftState};
use crate::time::{self, TimeModel, Timestamp};
use crate::transcribe::Segment;
use vstd::prelude::*;

verus! {

/// Sample rate of the audio that is segmented.
pub const TARGET_SR: u32 = 16_000;

/// Length of a frame in milliseconds.
pub const FRAME_MS: u32 = 30;

/// Samples in a frame.
pub const FRAME_SAMPLES: usize = 480;

/// Frames of speech between two snapshots of the segment in progress.
pub const DRAFT_EVERY: usize = 10;

/// The voice activity detector of the webrtc-vad crate.
#[verifier::external_type_specification]
#[verifier::external_body]
pub struct ExVad(webrtc_vad::Vad);

/// The sample rate and the mode that a detector was made with.
pub uninterp spec fn vad_setup(v: webrtc_vad::Vad) -> (int, int);

/// The frames that a detector has judged since it was made.
pub uninterp spec fn vad_fed(v: webrtc_vad::Vad) -> Seq<Seq<i16>>;

/// The verdict of a detector made with this sample rate and mode on the last of
/// these frames, when it was given all of them in this order.
pub uninterp spec fn voice(rate: int, mode: int, frames: Seq<Seq<i16>>) -> bool;

/// The frame lengths that a detector takes: 10, 20 or 30 ms.
pub open spec fn valid_frame(rate: int, len: int) -> bool {
    len == rate / 100 || len == rate / 50 || len == 3 * (rate / 100)
}

/// `Vad::new_with_rate_and_mode` of webrtc-vad: a detector with this rate and mode
/// that has judged no frame.
#[verifier::external_body]
fn vad_new(rate: u32, mode: u8) -> (v: webrtc_vad::Vad)
    requires
        rate == 8000 || rate == 16_000 || rate == 32_000 || rate == 48_000,
        mode <= 3,
    ensures
        vad_setup(v) == (rate as int, mode as int),
        vad_fed(v) == Seq::<Seq<i16>>::empty(),
{
    let sample_rate = webrtc_vad::SampleRate::try_from(rate as i32).unwrap();
    let vad_mode = match mode {
        0 => webrtc_vad::VadMode::Quality,
        1 => webrtc_vad::VadMode::LowBitrate,
        2 => webrtc_vad::VadMode::Aggressive,
        _ => webrtc_vad::VadMode::VeryAggressive,
    };
    webrtc_vad::Vad::new_with_rate_and_mode(sample_rate, vad_mode)
}

/// `Vad::is_voice_segment` of webrtc-vad: a frame of 10, 20 or 30 ms is judged, and
/// the verdict depends on the setup and on all frames judged so far; a frame of
/// another length is refused and leaves no trace.
#[verifier::external_body]
fn vad_judge(v: &mut webrtc_vad::Vad, frame: &Vec<i16>) -> (r: Result<bool, ()>)
    requires
        frame@.len() > 0,
    ensures
        vad_setup(*final(v)) == vad_setup(*old(v)),
        valid_frame(vad_setup(*old(v)).0, frame@.len() as int) ==> {
            &&& vad_fed(*final(v)) == vad_fed(*old(v)).push(frame@)
            &&& r == Ok::<bool, ()>(
                voice(vad_setup(*old(v)).0, vad_setup(*old(v)).1, vad_fed(*final(v))),
            )
        },
        !valid_frame(vad_setup(*old(v)).0, frame@.len() as int) ==> {
            &&& vad_fed(*final(v)) == vad_fed(*old(v))
            &&& r is Err
        },
{
    v.is_voice_segment(frame)
}

/// A speech detector for audio at the target rate.
pub struct WebRtcDetector {
    vad: webrtc_vad::Vad,
}

impl WebRtcDetector {
    /// The mode that the detector was made with.
    pub closed spec fn mode(&self) -> int {
        vad_setup(self.vad).1
    }

    /// The frames that the detector has judged.
    pub closed spec fn fed(&self) -> Seq<Seq<i16>> {
        vad_fed(self.vad)
    }

    /// The detector works at the target rate.
    pub closed spec fn wf(&self) -> bool {
        vad_setup(self.vad).0 == TARGET_SR
    }

    /// Whether the frame holds speech. A frame of a length that the detector does
    /// not take holds none.
    pub fn is_speech(&mut self, frame: &Vec<i16>) -> (r: bool)
        requires
            old(self).wf(),
            frame@.len() > 0,
        ensures
            final(self).wf(),
            final(self).mode() == old(self).mode(),
            valid_frame(TARGET_SR as int, frame@.len() as int) ==> {
                &&& final(self).fed() == old(self).fed().push(frame@)
                &&& r == voice(TARGET_SR as int, old(self).mode(), final(self).fed())
            },
            !valid_frame(TARGET_SR as int, frame@.len() as int) ==> {
                &&& final(self).fed() == old(self).fed()
                &&& !r
            },
    {
        match vad_judge(&mut self.vad, frame) {
            Ok(b) => b,
            Err(_) => false,
        }
    }
}

/// How the stream is segmented.
pub struct VadRunner {
    aggressiveness: u8,
    min_speech_ms: u32,
    silence_ms: u32,
    max_segment_ms: u32,
}

/// A time in whole frames, at least one.
pub open spec fn frames_in(ms: u32) -> nat {
    if ms < FRAME_MS {
        1
    } else {
        (ms / FRAME_MS) as nat
    }
}

fn frames_of(ms: u32) -> (n: usize)
    ensures
        n == frames_in(ms),
        n * FRAME_MS <= u32::MAX,
        n >= 1,
{
    let n: u32 = ms / FRAME_MS;
    if n < 1 {
        1
    } else {
        n as usize
    }
}

/// The limits of a segmenter, in frames.
pub struct Limits {
    /// Frames of silence that end a segment.
    pub silence: nat,
    /// Frames of speech below which a segment is dropped.
    pub min_speech: nat,
    /// Frames at which a segment is cut off.
    pub max_segment: nat,
}

impl VadRunner {
    /// The mode of the detector: the aggressiveness, at most three.
    pub closed spec fn mode(&self) -> int {
        if self.aggressiveness < 3 {
            self.aggressiveness as int
        } else {
            3
        }
    }

    /// The limits in frames.
    pub closed spec fn limits(&self) -> Limits {
        Limits {
            silence: frames_in(self.silence_ms),
            min_speech: frames_in(self.min_speech_ms),
            max_segment: frames_in(self.max_segment_ms),
        }
    }

    pub fn new(aggr: u8, min_speech_ms: u32, silence_ms: u32, max_segment_ms: u32) -> (r: Self)
        ensures
            r.mode() == if aggr < 3 {
                aggr as int
            } else {
                3
            },
            r.limits() == (Limits {
                silence: frames_in(silence_ms),
                min_speech: frames_in(min_speech_ms),
                max_segment: frames_in(max_segment_ms),
            }),
    {
        VadRunner { aggressiveness: aggr, min_speech_ms, silence_ms, max_segment_ms }
    }

    /// A fresh detector with the configured mode.
    pub fn detector(&self) -> (r: WebRtcDetector)
        ensures
            r.wf(),
            r.mode() == self.mode(),
            r.fed() == Seq::<Seq<i16>>::empty(),
    {
        let mode: u8 = match self.aggressiveness {
            0 => 0,
            1 => 1,
            2 => 2,
            _ => 3,
        };
        WebRtcDetector { vad: vad_new(TARGET_SR, mode) }
    }

    /// A fresh segmenter with the configured limits.
    pub fn segmenter<T: Copy>(&self) -> (r: Segmenter<T>)
        ensures
            r.wf(),
            r@ == fresh::<T>(self.limits()),
    {
        let r = Segmenter {
            silence_limit: frames_of(self.silence_ms),
            min_speech_frames: frames_of(self.min_speech_ms),
            max_segment_frames: frames_of(self.max_segment_ms),
            leftover: Vec::new(),
            segment: Vec::new(),
            in_speech: false,
            silence_frames: 0,
            speech_frames: 0,
            segment_start: None,
            next_id: 0,
            frames_since_draft: 0,
        };
        assert(r@ == fresh::<T>(self.limits()));
        r
    }
}

/// Collects the frames of a segment.
pub struct Segmenter<T> {
    silence_limit: usize,
    min_speech_frames: usize,
    max_segment_frames: usize,
    leftover: Vec<T>,
    segment: Vec<T>,
    in_speech: bool,
    silence_frames: usize,
    speech_frames: usize,
    segment_start: Option<Timestamp>,
    next_id: u64,
    frames_since_draft: usize,
}

/// The contents of a [`Segmenter`].
pub struct SegmenterModel<T> {
    pub limits: Limits,
    /// Samples that do not fill a frame yet.
    pub leftover: Seq<T>,
    /// Samples of the segment in progress.
    pub segment: Seq<T>,
    pub in_speech: bool,
    /// Frames of silence since the last speech.
    pub silence: nat,
    /// Frames of speech in the segment.
    pub speech: nat,
    /// When the last segment began.
    pub start: Option<TimeModel>,
    pub next_id: nat,
    /// Frames of speech since the last snapshot.
    pub since_draft: nat,
}

/// The contents of a [`Segment`].
pub struct SegmentModel<T> {
    pub id: nat,
    pub samples: Seq<T>,
    pub started_at: TimeModel,
    pub ended_at: TimeModel,
    pub speech_ms: nat,
}

impl<T> View for Segment<T> {
    type V = SegmentModel<T>;

    open spec fn view(&self) -> SegmentModel<T> {
        SegmentModel {
            id: self.id as nat,
            samples: self.samples@,
            started_at: self.started_at@,
            ended_at: self.ended_at@,
            speech_ms: self.speech_ms as nat,
        }
    }
}

impl<T> View for Segmenter<T> {
    type V = SegmenterModel<T>;

    closed spec fn view(&self) -> SegmenterModel<T> {
        SegmenterModel {
            limits: Limits {
                silence: self.silence_limit as nat,
                min_speech: self.min_speech_frames as nat,
                max_segment: self.max_segment_frames as nat,
            },
            leftover: self.leftover@,
            segment: self.segment@,
            in_speech: self.in_speech,
            silence: self.silence_frames as nat,
            speech: self.speech_frames as nat,
            start: match self.segment_start {
                Some(t) => Some(t@),
                None => None,
            },
            next_id: self.next_id as nat,
            since_draft: self.frames_since_draft as nat,
        }
    }
}

/// A segmenter that has heard nothing.
pub open spec fn fresh<T>(limits: Limits) -> SegmenterModel<T> {
    SegmenterModel {
        limits,
        leftover: Seq::empty(),
        segment: Seq::empty(),
        in_speech: false,
        silence: 0,
        speech: 0,
        start: None,
        next_id: 0,
        since_draft: 0,
    }
}

impl<T> SegmenterModel<T> {
    /// What every segmenter keeps: outside of speech nothing is collected; inside,
    /// neither limit is reached, and the segment holds whole frames, among them those
    /// that are counted.
    pub open spec fn wf(self) -> bool {
        &&& self.limits.silence >= 1
        &&& self.limits.min_speech >= 1
        &&& self.limits.max_segment >= 1
        &&& self.limits.max_segment * FRAME_MS <= u32::MAX
        &&& self.since_draft < DRAFT_EVERY
        &&& self.next_id <= u64::MAX
        &&& !self.in_speech ==> self.segment.len() == 0 && self.speech == 0 && self.silence == 0
        &&& self.in_speech ==> {
            &&& self.start is Some
            &&& self.speech >= 1
            &&& self.silence < self.limits.silence
            &&& self.segment.len() % FRAME_SAMPLES as nat == 0
            &&& (self.speech + self.silence) * FRAME_SAMPLES <= self.segment.len()
            &&& self.segment.len() < self.limits.max_segment * FRAME_SAMPLES
        }
    }

    /// After a frame of speech.
    pub open spec fn heard(self, frame: Seq<T>, now: TimeModel) -> Self {
        SegmenterModel {
            in_speech: true,
            start: if self.in_speech {
                self.start
            } else {
                Some(now)
            },
            silence: 0,
            speech: self.speech + 1,
            segment: self.segment + frame,
            since_draft: if self.since_draft + 1 >= DRAFT_EVERY {
                0
            } else {
                self.since_draft + 1
            },
            ..self
        }
    }

    /// After a frame of silence: inside a segment it is kept and counted.
    pub open spec fn lull(self, frame: Seq<T>) -> Self {
        if self.in_speech {
            SegmenterModel { silence: self.silence + 1, segment: self.segment + frame, ..self }
        } else {
            self
        }
    }

    /// After a frame, before the limits are looked at.
    pub open spec fn collected(self, frame: Seq<T>, is_speech: bool, now: TimeModel) -> Self {
        if is_speech {
            self.heard(frame, now)
        } else {
            self.lull(frame)
        }
    }

    /// Whether the pause in the segment is long enough to end it.
    pub open spec fn paused_out(self) -> bool {
        self.in_speech && self.silence >= self.limits.silence
    }

    /// Whether the segment is at its longest, by the frames that it holds.
    pub open spec fn filled_up(self) -> bool {
        self.in_speech && self.segment.len() / FRAME_SAMPLES as nat >= self.limits.max_segment
    }

    /// Whether the segment ends here.
    pub open spec fn ends(self) -> bool {
        self.paused_out() || self.filled_up()
    }

    /// Whether the segment that ends here is handed out: one that a pause ended
    /// needs enough speech.
    pub open spec fn keeps(self) -> bool {
        self.ends() && (self.paused_out() ==> self.speech >= self.limits.min_speech)
    }

    /// The segmenter once the segment has ended.
    pub open spec fn closed_off(self) -> Self {
        SegmenterModel {
            segment: Seq::empty(),
            in_speech: false,
            silence: 0,
            speech: 0,
            since_draft: 0,
            next_id: if self.keeps() {
                self.next_id + 1
            } else {
                self.next_id
            },
            ..self
        }
    }

    /// The segmenter after a frame.
    pub open spec fn next(self, frame: Seq<T>, is_speech: bool, now: TimeModel) -> Self {
        let c = self.collected(frame, is_speech, now);
        if c.ends() {
            c.closed_off()
        } else {
            c
        }
    }

    /// The segment that a frame hands out.
    pub open spec fn flushed(self, frame: Seq<T>, is_speech: bool, now: TimeModel) -> Option<
        SegmentModel<T>,
    > {
        let c = self.collected(frame, is_speech, now);
        if c.keeps() {
            Some(
                SegmentModel {
                    id: c.next_id,
                    samples: c.segment,
                    started_at: c.start->0,
                    ended_at: now,
                    speech_ms: c.speech * FRAME_MS as nat,
                },
            )
        } else {
            None
        }
    }

    /// The snapshot that a frame of speech gives, at every tenth of them.
    pub open spec fn snapshot(self, frame: Seq<T>, is_speech: bool, now: TimeModel) -> Option<
        DraftState,
    > {
        let c = self.collected(frame, is_speech, now);
        if is_speech && self.since_draft + 1 >= DRAFT_EVERY {
            Some(
                DraftState {
                    active: true,
                    speech_ms: (c.speech * FRAME_MS) as u32,
                    elapsed_ms: elapsed(c.start->0, now),
                },
            )
        } else {
            None
        }
    }

    /// The segmenter once recording is paused: what was collected is gone.
    pub open spec fn discarded(self) -> Self {
        SegmenterModel {
            leftover: Seq::empty(),
            segment: Seq::empty(),
            in_speech: false,
            silence: 0,
            speech: 0,
            ..self
        }
    }
}

/// Milliseconds since the start of a segment, never negative, in 32 bits.
pub open spec fn elapsed(start: TimeModel, now: TimeModel) -> u32 {
    let ms = time::millis_between(start, now);
    if ms < 0 {
        0
    } else {
        ms as u32
    }
}

/// What a frame gives rise to.
pub struct StepOutput<T> {
    /// A snapshot of the segment in progress.
    pub progress: Option<DraftState>,
    /// A finished segment.
    pub segment: Option<Segment<T>>,
    /// The segment ended, so the draft goes back to idle.
    pub reset: Option<DraftState>,
}

/// The contents of an optional segment.
pub open spec fn segment_model<T>(s: Option<Segment<T>>) -> Option<SegmentModel<T>> {
    match s {
        Some(x) => Some(x@),
        None => None,
    }
}

fn append_samples<T: Copy>(to: &mut Vec<T>, from: &Vec<T>)
    ensures
        final(to)@ == old(to)@ + from@,
{
    let ghost before = to@;
    let mut i: usize = 0;
    assert(before + from@.take(0) =~= before);
    while i < from.len()
        invariant
            i <= from@.len(),
            to@ == before + from@.take(i as int),
        decreases from@.len() - i,
    {
        to.push(from[i]);
        assert(before + from@.take(i + 1) =~= (before + from@.take(i as int)).push(from@[i as int]));
        i += 1;
    }
    assert(from@.take(from@.len() as int) =~= from@);
}

/// The samples of some frames.
pub open spec fn frame_list<T>(frames: Seq<Vec<T>>) -> Seq<Seq<T>> {
    Seq::new(frames.len(), |i: int| frames[i]@)
}

impl<T: Copy> Segmenter<T> {
    /// See [`SegmenterModel::wf`].
    pub open spec fn wf(&self) -> bool {
        self@.wf()
    }

    /// Takes the samples of a chunk of audio.
    pub fn push_chunk(&mut self, chunk: &Vec<T>)
        requires
            old(self).wf(),
        ensures
            final(self).wf(),
            final(self)@ == (SegmenterModel {
                leftover: old(self)@.leftover + chunk@,
                ..old(self)@
            }),
    {
        append_samples(&mut self.leftover, chunk);
    }

    /// The next frame, as soon as there are samples enough for one.
    pub fn next_frame(&mut self) -> (r: Option<Vec<T>>)
        requires
            old(self).wf(),
        ensures
            final(self).wf(),
            match r {
                Some(f) => {
                    &&& old(self)@.leftover.len() >= FRAME_SAMPLES
                    &&& f@ == old(self)@.leftover.take(FRAME_SAMPLES as int)
                    &&& final(self)@ == (SegmenterModel {
                        leftover: old(self)@.leftover.skip(FRAME_SAMPLES as int),
                        ..old(self)@
                    })
                },
                None => old(self)@.leftover.len() < FRAME_SAMPLES && final(self)@ == old(self)@,
            },
    {
        if self.leftover.len() < FRAME_SAMPLES {
            return None;
        }
        let mut frame = self.leftover.split_off(FRAME_SAMPLES);
        std::mem::swap(&mut frame, &mut self.leftover);
        assert(frame@ =~= old(self)@.leftover.take(FRAME_SAMPLES as int));
        assert(self.leftover@ =~= old(self)@.leftover.skip(FRAME_SAMPLES as int));
        Some(frame)
    }

    /// All whole frames of the samples that wait; what does not fill a frame goes on
    /// waiting.
    pub fn take_frames(&mut self) -> (r: Vec<Vec<T>>)
        requires
            old(self).wf(),
        ensures
            final(self).wf(),
            frame_list(r@) == frames_of_audio(old(self)@.leftover),
            final(self)@ == (SegmenterModel {
                leftover: behind_frames(old(self)@.leftover),
                ..old(self)@
            }),
    {
        let ghost m = self@;
        let mut frames: Vec<Vec<T>> = Vec::new();
        assert(frame_list(frames@) + frames_of_audio(m.leftover) =~= frames_of_audio(m.leftover));
        while self.leftover.len() >= FRAME_SAMPLES
            invariant
                m.wf(),
                self@ == (SegmenterModel { leftover: self.leftover@, ..m }),
                frame_list(frames@) + frames_of_audio(self.leftover@) == frames_of_audio(
                    m.leftover,
                ),
                behind_frames(self.leftover@) == behind_frames(m.leftover),
            decreases self.leftover@.len(),
        {
            proof {
                lemma_first_frame(self.leftover@);
            }
            let ghost before = frame_list(frames@);
            let ghost waiting = self.leftover@;
            if let Some(frame) = self.next_frame() {
                frames.push(frame);
                assert(frame_list(frames@) =~= before.push(frame@));
                assert(frame_list(frames@) + frames_of_audio(self.leftover@) =~= before
                    + frames_of_audio(waiting));
            }
        }
        assert(frame_list(frames@) =~= frames_of_audio(m.leftover));
        assert(self.leftover@ =~= behind_frames(self.leftover@));
        frames
    }

    /// Recording is paused: drops what was collected.
    pub fn pause(&mut self) -> (r: DraftState)
        requires
            old(self).wf(),
        ensures
            final(self).wf(),
            final(self)@ == old(self)@.discarded(),
            r == msg::idle_draft(),
    {
        self.leftover = Vec::new();
        self.segment = Vec::new();
        self.in_speech = false;
        self.speech_frames = 0;
        self.silence_frames = 0;
        DraftState::default()
    }

    /// Takes a frame with the verdict of the detector.
    pub fn step(&mut self, frame: &Vec<T>, is_speech: bool, now: Timestamp) -> (r: StepOutput<T>)
        requires
            old(self).wf(),
            old(self)@.next_id < u64::MAX,
            frame@.len() == FRAME_SAMPLES,
        ensures
            final(self).wf(),
            final(self)@ == old(self)@.next(frame@, is_speech, now@),
            segment_model(r.segment) == old(self)@.flushed(frame@, is_speech, now@),
            r.progress == old(self)@.snapshot(frame@, is_speech, now@),
            r.reset == if old(self)@.collected(frame@, is_speech, now@).ends() {
                Some(msg::idle_draft())
            } else {
                None
            },
    {
        let ghost m = self@;
        let mut progress: Option<DraftState> = None;
        let mut segment: Option<Segment<T>> = None;
        let mut reset: Option<DraftState> = None;

        if is_speech {
            if !self.in_speech {
                self.in_speech = true;
                self.speech_frames = 0;
                self.segment_start = Some(now);
            }
            self.silence_frames = 0;
            self.speech_frames += 1;
            append_samples(&mut self.segment, frame);
            self.frames_since_draft += 1;
            if self.frames_since_draft >= DRAFT_EVERY {
                let elapsed_ms: u32 = match &self.segment_start {
                    Some(start) => {
                        let ms: i64 = start.millis_until(&now);
                        if ms < 0 {
                            0
                        } else {
                            ms as u32
                        }
                    },
                    None => 0,
                };
                progress =
                Some(
                    DraftState {
                        active: true,
                        speech_ms: self.speech_frames as u32 * FRAME_MS,
                        elapsed_ms,
                    },
                );
                self.frames_since_draft = 0;
            }
        } else if self.in_speech {
            self.silence_frames += 1;
            append_samples(&mut self.segment, frame);
        }
        let ghost c = m.collected(frame@, is_speech, now@);
        assert(self@ == c);

        if self.in_speech {
            let paused_out = self.silence_frames >= self.silence_limit;
            if paused_out || self.segment.len() / FRAME_SAMPLES >= self.max_segment_frames {
                let mut samples: Vec<T> = Vec::new();
                std::mem::swap(&mut samples, &mut self.segment);
                if !paused_out || self.speech_frames >= self.min_speech_frames {
                    let started_at = match self.segment_start {
                        Some(t) => t,
                        None => now,
                    };
                    segment =
                    Some(
                        Segment {
                            id: self.next_id,
                            samples,
                            started_at,
                            ended_at: now,
                            speech_ms: self.speech_frames as u32 * FRAME_MS,
                        },
                    );
                    self.next_id += 1;
                }
                self.in_speech = false;
                self.silence_frames = 0;
                self.speech_frames = 0;
                self.frames_since_draft = 0;
                reset = Some(DraftState::default());
                assert(self@ == c.closed_off());
            }
        }
        StepOutput { progress, segment, reset }
    }
}

/// A detector and a segmenter that work on the same stream.
pub struct VadSession<T> {
    pub detector: WebRtcDetector,
    pub segmenter: Segmenter<T>,
}

impl VadRunner {
    /// A fresh session with the configured mode and limits.
    pub fn session<T: Copy>(&self) -> (r: VadSession<T>)
        ensures
            r.detector.wf(),
            r.detector.mode() == self.mode(),
            r.detector.fed() == Seq::<Seq<i16>>::empty(),
            r.segmenter.wf(),
            r.segmenter@ == fresh::<T>(self.limits()),
    {
        VadSession { detector: self.detector(), segmenter: self.segmenter() }
    }
}

impl<T: Copy> VadSession<T> {
    /// Takes a frame: the detector judges it in 16-bit form, and the segmenter takes
    /// it with that verdict.
    pub fn hear(&mut self, frame: &Vec<T>, pcm: &Vec<i16>, now: Timestamp) -> (r: StepOutput<T>)
        requires
            old(self).detector.wf(),
            old(self).segmenter.wf(),
            old(self).segmenter@.next_id < u64::MAX,
            frame@.len() == FRAME_SAMPLES,
            pcm@.len() == FRAME_SAMPLES,
        ensures
            final(self).detector.wf(),
            final(self).detector.mode() == old(self).detector.mode(),
            final(self).detector.fed() == old(self).detector.fed().push(pcm@),
            final(self).segmenter.wf(),
            ({
                let speech = voice(
                    TARGET_SR as int,
                    old(self).detector.mode(),
                    final(self).detector.fed(),
                );
                let m = old(self).segmenter@;
                &&& final(self).segmenter@ == m.next(frame@, speech, now@)
                &&& segment_model(r.segment) == m.flushed(frame@, speech, now@)
                &&& r.progress == m.snapshot(frame@, speech, now@)
                &&& r.reset == if m.collected(frame@, speech, now@).ends() {
                    Some(msg::idle_draft())
                } else {
                    None
                }
            }),
    {
        let is_speech = self.detector.is_speech(pcm);
        self.segmenter.step(frame, is_speech, now)
    }
}

/// A frame with its verdict and the time at which it came.
pub struct Heard<T> {
    pub frame: Seq<T>,
    pub is_speech: bool,
    pub at: TimeModel,
}

/// Every frame has the length of a frame.
pub open spec fn whole_frames<T>(input: Seq<Heard<T>>) -> bool {
    forall|i: int| 0 <= i < input.len() ==> (#[trigger] input[i]).frame.len() == FRAME_SAMPLES
}

/// The samples of all frames, one after the other.
pub open spec fn audio<T>(input: Seq<Heard<T>>) -> Seq<T>
    decreases input.len(),
{
    if input.len() == 0 {
        Seq::empty()
    } else {
        audio(input.drop_last()) + input.last().frame
    }
}

/// The segmenter after a run of frames.
pub open spec fn run_state<T>(m: SegmenterModel<T>, input: Seq<Heard<T>>) -> SegmenterModel<T>
    decreases input.len(),
{
    if input.len() == 0 {
        m
    } else {
        let h = input.last();
        run_state(m, input.drop_last()).next(h.frame, h.is_speech, h.at)
    }
}

/// The segments that a run of frames hands out, in order.
pub open spec fn run_segments<T>(m: SegmenterModel<T>, input: Seq<Heard<T>>) -> Seq<
    SegmentModel<T>,
>
    decreases input.len(),
{
    if input.len() == 0 {
        Seq::empty()
    } else {
        let h = input.last();
        let before = run_segments(m, input.drop_last());
        match run_state(m, input.drop_last()).flushed(h.frame, h.is_speech, h.at) {
            Some(s) => before.push(s),
            None => before,
        }
    }
}

/// A frame leaves the segmenter as every segmenter is, with the same limits.
pub proof fn step_keeps_wf<T>(
    m: SegmenterModel<T>,
    frame: Seq<T>,
    is_speech: bool,
    now: TimeModel,
)
    requires
        m.wf(),
        m.next_id < u64::MAX,
        frame.len() == FRAME_SAMPLES,
    ensures
        m.next(frame, is_speech, now).wf(),
        m.next(frame, is_speech, now).limits == m.limits,
{
}

/// A run of frames leaves the segmenter as every segmenter is, with the same
/// limits, and moves the next id by the number of segments handed out.
pub proof fn run_keeps_wf<T>(m: SegmenterModel<T>, input: Seq<Heard<T>>)
    requires
        m.wf(),
        whole_frames(input),
        m.next_id + input.len() <= u64::MAX,
    ensures
        run_state(m, input).wf(),
        run_state(m, input).limits == m.limits,
        run_state(m, input).next_id == m.next_id + run_segments(m, input).len(),
        run_segments(m, input).len() <= input.len(),
    decreases input.len(),
{
    if input.len() > 0 {
        assert(whole_frames(input.drop_last())) by {
            assert forall|i: int| 0 <= i < input.len() - 1 implies (
            #[trigger] input.drop_last()[i]).frame.len() == FRAME_SAMPLES by {
                assert(input.drop_last()[i] == input[i]);
            }
        }
        run_keeps_wf(m, input.drop_last());
        let h = input.last();
        assert(input[input.len() - 1].frame.len() == FRAME_SAMPLES);
        step_keeps_wf(run_state(m, input.drop_last()), h.frame, h.is_speech, h.at);
    }
}

/// The segments of a run are numbered one after the other.
pub proof fn ids_count_up<T>(m: SegmenterModel<T>, input: Seq<Heard<T>>)
    requires
        m.wf(),
        whole_frames(input),
        m.next_id + input.len() <= u64::MAX,
    ensures
        forall|i: int|
            0 <= i < run_segments(m, input).len() ==> (#[trigger] run_segments(m, input)[i]).id
                == m.next_id + i,
    decreases input.len(),
{
    if input.len() > 0 {
        let before = input.drop_last();
        assert forall|i: int| 0 <= i < before.len() implies (#[trigger] before[i]).frame.len()
            == FRAME_SAMPLES by {
            assert(before[i] == input[i]);
        }
        ids_count_up(m, before);
        run_keeps_wf(m, before);
    }
}

/// What every segment that is handed out satisfies under these limits: whole
/// frames, no more than the longest segment has, at least one of them speech, and
/// either enough speech or the full length.
pub open spec fn worth_keeping<T>(s: SegmentModel<T>, limits: Limits) -> bool {
    &&& s.samples.len() % FRAME_SAMPLES as nat == 0
    &&& s.samples.len() <= limits.max_segment * FRAME_SAMPLES
    &&& FRAME_MS <= s.speech_ms
    &&& s.speech_ms * FRAME_SAMPLES <= s.samples.len() * FRAME_MS
    &&& {
        ||| s.speech_ms >= limits.min_speech * FRAME_MS
        ||| s.samples.len() == limits.max_segment * FRAME_SAMPLES
    }
}

/// Every segment of a run is worth keeping; a burst of speech that is too short
/// and that a pause ended is never handed out.
pub proof fn segments_are_worth_keeping<T>(m: SegmenterModel<T>, input: Seq<Heard<T>>)
    requires
        m.wf(),
        whole_frames(input),
        m.next_id + input.len() <= u64::MAX,
    ensures
        forall|i: int|
            0 <= i < run_segments(m, input).len() ==> worth_keeping(
                #[trigger] run_segments(m, input)[i],
                m.limits,
            ),
    decreases input.len(),
{
    if input.len() > 0 {
        let before = input.drop_last();
        assert forall|i: int| 0 <= i < before.len() implies (#[trigger] before[i]).frame.len()
            == FRAME_SAMPLES by {
            assert(before[i] == input[i]);
        }
        segments_are_worth_keeping(m, before);
        run_keeps_wf(m, before);
        assert(input[input.len() - 1].frame.len() == FRAME_SAMPLES);
        let h = input.last();
        let c = run_state(m, before).collected(h.frame, h.is_speech, h.at);
        if c.keeps() {
            assert(worth_keeping(run_segments(m, input).last(), m.limits));
        }
    }
}

/// No segment of a run is longer than the longest segment, however speech and short
/// pauses follow each other in it.
pub proof fn segments_stay_within_the_maximum<T>(m: SegmenterModel<T>, input: Seq<Heard<T>>)
    requires
        m.wf(),
        whole_frames(input),
        m.next_id + input.len() <= u64::MAX,
    ensures
        forall|i: int|
            0 <= i < run_segments(m, input).len() ==> (#[trigger] run_segments(
                m,
                input,
            )[i]).samples.len() <= m.limits.max_segment * FRAME_SAMPLES,
{
    segments_are_worth_keeping(m, input);
    assert forall|i: int| 0 <= i < run_segments(m, input).len() implies (#[trigger] run_segments(
        m,
        input,
    )[i]).samples.len() <= m.limits.max_segment * FRAME_SAMPLES by {
        assert(worth_keeping(run_segments(m, input)[i], m.limits));
    }
}

/// Where silence comes in outside of speech, nothing is collected and nothing is
/// handed out.
pub proof fn silence_gives_nothing<T>(m: SegmenterModel<T>, input: Seq<Heard<T>>)
    requires
        !m.in_speech,
        forall|i: int| 0 <= i < input.len() ==> !(#[trigger] input[i]).is_speech,
    ensures
        run_state(m, input) == m,
        run_segments(m, input).len() == 0,
    decreases input.len(),
{
    if input.len() > 0 {
        let before = input.drop_last();
        assert forall|i: int| 0 <= i < before.len() implies !(#[trigger] before[i]).is_speech by {
            assert(before[i] == input[i]);
        }
        silence_gives_nothing(m, before);
        assert(!input[input.len() - 1].is_speech);
    }
}

/// The frame with which the segment in progress began.
pub open spec fn open_from<T>(m: SegmenterModel<T>, input: Seq<Heard<T>>) -> int
    decreases input.len(),
{
    if input.len() == 0 {
        0
    } else if run_state(m, input.drop_last()).in_speech {
        open_from(m, input.drop_last())
    } else {
        input.len() - 1
    }
}

/// For each segment of a run the frames that it covers: the first one, and the one
/// behind the last.
pub open spec fn spans<T>(m: SegmenterModel<T>, input: Seq<Heard<T>>) -> Seq<(int, int)>
    decreases input.len(),
{
    if input.len() == 0 {
        Seq::empty()
    } else {
        let h = input.last();
        let before = spans(m, input.drop_last());
        match run_state(m, input.drop_last()).flushed(h.frame, h.is_speech, h.at) {
            Some(s) => before.push((open_from(m, input), input.len() as int)),
            None => before,
        }
    }
}

/// A span holds the frames `lo..hi` of the input, and begins with speech.
pub open spec fn covers<T>(samples: Seq<T>, input: Seq<Heard<T>>, lo: int, hi: int) -> bool {
    &&& 0 <= lo < hi <= input.len()
    &&& input[lo].is_speech
    &&& samples == audio(input.subrange(lo, hi))
}

/// A segment is a stretch of the audio that came in: it holds the frames of its
/// span, all of them and in order, and the span begins with speech. The spans of a
/// run follow each other without overlap.
pub proof fn segments_are_stretches<T>(m: SegmenterModel<T>, input: Seq<Heard<T>>)
    requires
        m.wf(),
        !m.in_speech,
    ensures
        spans(m, input).len() == run_segments(m, input).len(),
        forall|i: int|
            0 <= i < spans(m, input).len() ==> covers(
                (#[trigger] run_segments(m, input)[i]).samples,
                input,
                spans(m, input)[i].0,
                spans(m, input)[i].1,
            ),
        forall|i: int, j: int|
            0 <= i < j < spans(m, input).len() ==> (#[trigger] spans(m, input)[i]).1 <= (
            #[trigger] spans(m, input)[j]).0,
        run_state(m, input).in_speech ==> {
            &&& covers(
                run_state(m, input).segment,
                input,
                open_from(m, input),
                input.len() as int,
            )
            &&& forall|i: int|
                0 <= i < spans(m, input).len() ==> (#[trigger] spans(m, input)[i]).1 <= open_from(
                    m,
                    input,
                )
        },
        !run_state(m, input).in_speech ==> run_state(m, input).segment.len() == 0,
        forall|i: int| 0 <= i < spans(m, input).len() ==> (#[trigger] spans(m, input)[i]).1 <= input.len(),
    decreases input.len(),
{
    if input.len() > 0 {
        let before = input.drop_last();
        let n = input.len() as int;
        segments_are_stretches(m, before);
        let p = run_state(m, before);
        let h = input.last();
        let lo = open_from(m, input);
        let c = p.collected(h.frame, h.is_speech, h.at);
        if c.in_speech {
            assert(0 <= lo < n);
            assert(input.subrange(lo, n).last() == h);
            if p.in_speech {
                assert(input.subrange(lo, n).drop_last() =~= before.subrange(lo, n - 1));
                assert(before[lo] == input[lo]);
                assert(c.segment == audio(input.subrange(lo, n)));
            } else {
                assert(p.segment =~= Seq::empty());
                let one = input.subrange(lo, n);
                assert(lo == n - 1 && one.len() == 1);
                assert(one.drop_last().len() == 0);
                assert(audio(one.drop_last()) =~= Seq::<T>::empty());
                assert(audio(one) == audio(one.drop_last()) + one.last().frame);
                assert(c.segment =~= audio(one));
            }
            assert(covers(c.segment, input, lo, n));
        }
        assert forall|i: int| 0 <= i < spans(m, input).len() implies covers(
            (#[trigger] run_segments(m, input)[i]).samples,
            input,
            spans(m, input)[i].0,
            spans(m, input)[i].1,
        ) by {
            if i < spans(m, before).len() {
                let (a, b) = spans(m, before)[i];
                assert(run_segments(m, input)[i] == run_segments(m, before)[i]);
                assert(input.subrange(a, b) =~= before.subrange(a, b));
                assert(before[a] == input[a]);
            }
        }
    }
}

/// The number of frames of speech.
pub open spec fn speech_count<T>(input: Seq<Heard<T>>) -> nat
    decreases input.len(),
{
    if input.len() == 0 {
        0
    } else if input.last().is_speech {
        speech_count(input.drop_last()) + 1
    } else {
        speech_count(input.drop_last())
    }
}

/// The frames of each burst that ended without being handed out: the first one, and
/// the one behind the last.
pub open spec fn dropped<T>(m: SegmenterModel<T>, input: Seq<Heard<T>>) -> Seq<(int, int)>
    decreases input.len(),
{
    if input.len() == 0 {
        Seq::empty()
    } else {
        let h = input.last();
        let before = dropped(m, input.drop_last());
        let c = run_state(m, input.drop_last()).collected(h.frame, h.is_speech, h.at);
        if c.ends() && !c.keeps() {
            before.push((open_from(m, input), input.len() as int))
        } else {
            before
        }
    }
}

/// Whether one of the spans holds the frame.
pub open spec fn in_some_span(spans: Seq<(int, int)>, k: int) -> bool {
    exists|i: int| 0 <= i < spans.len() && (#[trigger] spans[i]).0 <= k < spans[i].1
}

/// A burst of too little speech under these limits that a pause ended: it holds the
/// frames `lo..hi` of the input, and the last of them are the silence of the pause.
pub open spec fn too_short<T>(input: Seq<Heard<T>>, lo: int, hi: int, limits: Limits) -> bool {
    &&& 0 <= lo < hi <= input.len()
    &&& input[lo].is_speech
    &&& speech_count(input.subrange(lo, hi)) < limits.min_speech
    &&& lo <= hi - limits.silence
    &&& forall|k: int| hi - limits.silence <= k < hi ==> !(#[trigger] input[k]).is_speech
}

/// The speech of a segment is that of the frames of its span, and no speech is lost
/// but in bursts that are too short: every frame of speech lies in the span of a
/// segment, in a burst that a pause ended with too little speech, or in the segment
/// in progress. That one counts the speech in its frames and the silence at its end,
/// which is shorter than a pause.
pub proof fn speech_is_accounted_for<T>(m: SegmenterModel<T>, input: Seq<Heard<T>>)
    requires
        m.wf(),
        !m.in_speech,
    ensures
        run_state(m, input).limits == m.limits,
        !run_state(m, input).in_speech ==> run_state(m, input).speech == 0 && run_state(
            m,
            input,
        ).silence == 0,
        run_state(m, input).in_speech ==> {
            let p = run_state(m, input);
            let lo = open_from(m, input);
            let n = input.len() as int;
            &&& p.speech == speech_count(input.subrange(lo, n))
            &&& lo <= n - p.silence
            &&& p.silence < p.limits.silence
            &&& forall|k: int| n - p.silence <= k < n ==> !(#[trigger] input[k]).is_speech
        },
        forall|i: int|
            0 <= i < run_segments(m, input).len() ==> (#[trigger] run_segments(
                m,
                input,
            )[i]).speech_ms == FRAME_MS * speech_count(
                input.subrange(spans(m, input)[i].0, spans(m, input)[i].1),
            ),
        forall|i: int|
            0 <= i < dropped(m, input).len() ==> too_short(
                input,
                (#[trigger] dropped(m, input)[i]).0,
                dropped(m, input)[i].1,
                m.limits,
            ),
        forall|k: int|
            0 <= k < input.len() && (#[trigger] input[k]).is_speech ==> {
                ||| in_some_span(spans(m, input), k)
                ||| in_some_span(dropped(m, input), k)
                ||| run_state(m, input).in_speech && open_from(m, input) <= k
            },
    decreases input.len(),
{
    if input.len() > 0 {
        let before = input.drop_last();
        let n = input.len() as int;
        speech_is_accounted_for(m, before);
        segments_are_stretches(m, before);
        let p = run_state(m, before);
        let h = input.last();
        let lo = open_from(m, input);
        let c = p.collected(h.frame, h.is_speech, h.at);
        let run = input.subrange(lo, n);
        if c.in_speech {
            assert(run.last() == h);
            if p.in_speech {
                assert(run.drop_last() =~= before.subrange(lo, n - 1));
                assert(before[lo] == input[lo]);
            } else {
                assert(run.drop_last().len() == 0);
                assert(speech_count(run.drop_last()) == 0);
            }
            assert(c.speech == speech_count(run));
            assert forall|k: int| n - c.silence <= k < n implies !(#[trigger] input[k]).is_speech by {
                if k < n - 1 {
                    assert(before[k] == input[k]);
                }
            }
        }
        let old_spans = spans(m, before);
        let old_dropped = dropped(m, before);
        assert forall|i: int| 0 <= i < run_segments(m, input).len() implies (
        #[trigger] run_segments(m, input)[i]).speech_ms == FRAME_MS * speech_count(
            input.subrange(spans(m, input)[i].0, spans(m, input)[i].1),
        ) by {
            if i < old_spans.len() {
                let (a, b) = old_spans[i];
                assert(run_segments(m, input)[i] == run_segments(m, before)[i]);
                assert(covers(run_segments(m, before)[i].samples, before, a, b));
                assert(input.subrange(a, b) =~= before.subrange(a, b));
            }
        }
        assert forall|i: int| 0 <= i < dropped(m, input).len() implies too_short(
            input,
            (#[trigger] dropped(m, input)[i]).0,
            dropped(m, input)[i].1,
            m.limits,
        ) by {
            if i < old_dropped.len() {
                let (a, b) = old_dropped[i];
                assert(dropped(m, input)[i] == old_dropped[i]);
                assert(too_short(before, a, b, m.limits));
                assert(input.subrange(a, b) =~= before.subrange(a, b));
                assert(before[a] == input[a]);
                assert forall|k: int| b - m.limits.silence <= k < b implies !(
                #[trigger] input[k]).is_speech by {
                    assert(before[k] == input[k]);
                }
            }
        }
        assert forall|k: int| 0 <= k < n && (#[trigger] input[k]).is_speech implies {
            ||| in_some_span(spans(m, input), k)
            ||| in_some_span(dropped(m, input), k)
            ||| run_state(m, input).in_speech && open_from(m, input) <= k
        } by {
            if k < n - 1 {
                assert(before[k] == input[k]);
                if in_some_span(old_spans, k) {
                    let i = choose|i: int|
                        0 <= i < old_spans.len() && (#[trigger] old_spans[i]).0 <= k
                            < old_spans[i].1;
                    assert(spans(m, input)[i] == old_spans[i]);
                } else if in_some_span(old_dropped, k) {
                    let i = choose|i: int|
                        0 <= i < old_dropped.len() && (#[trigger] old_dropped[i]).0 <= k
                            < old_dropped[i].1;
                    assert(dropped(m, input)[i] == old_dropped[i]);
                } else {
                    assert(p.in_speech && open_from(m, before) <= k);
                    assert(lo <= k);
                }
            }
            if lo <= k && c.ends() {
                if c.keeps() {
                    assert(spans(m, input).last() == (lo, n));
                    assert(spans(m, input)[old_spans.len() as int] == (lo, n));
                } else {
                    assert(dropped(m, input)[old_dropped.len() as int] == (lo, n));
                }
            }
        }
    }
}

/// Whether the frames from `lo` on end, at `hi`, in this many frames of silence.
pub open spec fn quiet_at<T>(input: Seq<Heard<T>>, lo: int, hi: int, frames: nat) -> bool {
    &&& lo <= hi - frames
    &&& forall|k: int| hi - frames <= k < hi ==> !(#[trigger] input[k]).is_speech
}

/// Whether what began at frame `lo` has to go on at `hi`: it has neither come to a
/// whole pause nor to the longest length.
pub open spec fn goes_on<T>(input: Seq<Heard<T>>, lo: int, hi: int, limits: Limits) -> bool {
    !quiet_at(input, lo, hi, limits.silence) && hi - lo < limits.max_segment
}

/// Whether the frames `lo..hi` are what is collected in one go under these limits:
/// from a frame of speech to the first whole pause or to the longest length,
/// whichever comes first, and not less.
pub open spec fn one_go<T>(input: Seq<Heard<T>>, lo: int, hi: int, limits: Limits) -> bool {
    &&& 0 <= lo < hi <= input.len()
    &&& input[lo].is_speech
    &&& !goes_on(input, lo, hi, limits)
    &&& forall|j: int| lo < j < hi ==> #[trigger] goes_on(input, lo, j, limits)
}

/// Whether what was collected in the frames `lo..hi` is worth handing out: it holds
/// enough speech, or it was cut at the longest length and not by a pause.
pub open spec fn worth_it<T>(input: Seq<Heard<T>>, lo: int, hi: int, limits: Limits) -> bool {
    speech_count(input.subrange(lo, hi)) >= limits.min_speech || !quiet_at(
        input,
        lo,
        hi,
        limits.silence,
    )
}

/// A segment lasts from speech to the first whole pause, or to the longest length: a
/// shorter silence never ends it, and neither limit is ever passed. What is handed
/// out is worth it, and has the times of its first and of its last frame; what is
/// dropped is not worth it. The segment in progress has come to neither limit.
pub proof fn only_pauses_and_length_end_segments<T>(m: SegmenterModel<T>, input: Seq<Heard<T>>)
    requires
        m.wf(),
        !m.in_speech,
        whole_frames(input),
    ensures
        spans(m, input).len() == run_segments(m, input).len(),
        forall|i: int|
            0 <= i < spans(m, input).len() ==> {
                let (lo, hi) = #[trigger] spans(m, input)[i];
                let s = run_segments(m, input)[i];
                &&& one_go(input, lo, hi, m.limits)
                &&& worth_it(input, lo, hi, m.limits)
                &&& s.started_at == input[lo].at
                &&& s.ended_at == input[hi - 1].at
                &&& s.samples.len() == FRAME_SAMPLES * (hi - lo)
            },
        forall|i: int|
            0 <= i < dropped(m, input).len() ==> {
                let (lo, hi) = #[trigger] dropped(m, input)[i];
                &&& one_go(input, lo, hi, m.limits)
                &&& !worth_it(input, lo, hi, m.limits)
            },
        run_state(m, input).in_speech ==> {
            let lo = open_from(m, input);
            let n = input.len() as int;
            &&& 0 <= lo < n
            &&& input[lo].is_speech
            &&& forall|j: int| lo < j <= n ==> #[trigger] goes_on(input, lo, j, m.limits)
        },
    decreases input.len(),
{
    segments_are_stretches(m, input);
    speech_is_accounted_for(m, input);
    lemma_open_run(m, input);
    if input.len() > 0 {
        let before = input.drop_last();
        let n = input.len() as int;
        assert forall|i: int| 0 <= i < before.len() implies (#[trigger] before[i]).frame.len()
            == FRAME_SAMPLES by {
            assert(before[i] == input[i]);
        }
        only_pauses_and_length_end_segments(m, before);
        lemma_open_run(m, before);
        speech_is_accounted_for(m, before);
        segments_are_stretches(m, before);
        let p = run_state(m, before);
        let h = input.last();
        let lo = open_from(m, input);
        let c = p.collected(h.frame, h.is_speech, h.at);
        assert(input[n - 1] == h);
        if c.in_speech {
            assert forall|j: int| lo < j < n implies #[trigger] goes_on(input, lo, j, m.limits) by {
                assert(p.in_speech && lo == open_from(m, before));
                assert(goes_on(before, lo, j, m.limits));
                lemma_goes_on_extends(before, input, lo, j, m.limits);
            }
            lemma_collected(m, input);
            if c.ends() {
                assert(one_go(input, lo, n, m.limits));
                lemma_speech_of_run(m, input);
            } else {
                assert(goes_on(input, lo, n, m.limits));
            }
        }
        assert forall|i: int| 0 <= i < spans(m, input).len() implies {
            let (a, b) = #[trigger] spans(m, input)[i];
            let s = run_segments(m, input)[i];
            &&& one_go(input, a, b, m.limits)
            &&& worth_it(input, a, b, m.limits)
            &&& s.started_at == input[a].at
            &&& s.ended_at == input[b - 1].at
            &&& s.samples.len() == FRAME_SAMPLES * (b - a)
        } by {
            if i < spans(m, before).len() {
                let (a, b) = spans(m, before)[i];
                assert(run_segments(m, input)[i] == run_segments(m, before)[i]);
                assert(spans(m, input)[i] == (a, b));
                lemma_one_go_extends(before, input, a, b, m.limits);
                assert(before[b - 1] == input[b - 1]);
            }
        }
        assert forall|i: int| 0 <= i < dropped(m, input).len() implies {
            let (a, b) = #[trigger] dropped(m, input)[i];
            &&& one_go(input, a, b, m.limits)
            &&& !worth_it(input, a, b, m.limits)
        } by {
            if i < dropped(m, before).len() {
                let (a, b) = dropped(m, before)[i];
                assert(dropped(m, input)[i] == (a, b));
                lemma_one_go_extends(before, input, a, b, m.limits);
            }
        }
    }
}

/// Frames behind a stretch make no difference to it.
proof fn lemma_goes_on_extends<T>(
    before: Seq<Heard<T>>,
    input: Seq<Heard<T>>,
    lo: int,
    hi: int,
    limits: Limits,
)
    requires
        before == input.drop_last(),
        input.len() > 0,
        0 <= lo <= hi < input.len(),
    ensures
        goes_on(before, lo, hi, limits) == goes_on(input, lo, hi, limits),
        quiet_at(before, lo, hi, limits.silence) == quiet_at(input, lo, hi, limits.silence),
{
    assert forall|k: int| 0 <= k < hi implies before[k] == input[k] by {}
    if quiet_at(before, lo, hi, limits.silence) {
        assert forall|k: int| hi - limits.silence <= k < hi implies !(
        #[trigger] input[k]).is_speech by {
            assert(!before[k].is_speech);
        }
    }
    if quiet_at(input, lo, hi, limits.silence) {
        assert forall|k: int| hi - limits.silence <= k < hi implies !(
        #[trigger] before[k]).is_speech by {
            assert(!input[k].is_speech);
        }
    }
}

proof fn lemma_one_go_extends<T>(
    before: Seq<Heard<T>>,
    input: Seq<Heard<T>>,
    lo: int,
    hi: int,
    limits: Limits,
)
    requires
        before == input.drop_last(),
        input.len() > 0,
        one_go(before, lo, hi, limits),
    ensures
        one_go(input, lo, hi, limits),
        worth_it(input, lo, hi, limits) == worth_it(before, lo, hi, limits),
        input[lo] == before[lo],
{
    lemma_goes_on_extends(before, input, lo, hi, limits);
    assert forall|j: int| lo < j < hi implies #[trigger] goes_on(input, lo, j, limits) by {
        assert(goes_on(before, lo, j, limits));
        lemma_goes_on_extends(before, input, lo, j, limits);
    }
    assert(input.subrange(lo, hi) =~= before.subrange(lo, hi));
}

/// What the segment in progress keeps: its length, its beginning, and the silence at
/// its end, before which there is speech.
proof fn lemma_open_run<T>(m: SegmenterModel<T>, input: Seq<Heard<T>>)
    requires
        m.wf(),
        !m.in_speech,
        whole_frames(input),
    ensures
        run_state(m, input).limits == m.limits,
        !run_state(m, input).in_speech ==> {
            &&& run_state(m, input).segment.len() == 0
            &&& run_state(m, input).silence == 0
        },
        run_state(m, input).in_speech ==> {
            let p = run_state(m, input);
            let lo = open_from(m, input);
            let n = input.len() as int;
            &&& 0 <= lo < n - p.silence
            &&& input[lo].is_speech
            &&& p.start == Some(input[lo].at)
            &&& p.segment.len() == FRAME_SAMPLES * (n - lo)
            &&& input[n - p.silence - 1].is_speech
            &&& forall|k: int| n - p.silence <= k < n ==> !(#[trigger] input[k]).is_speech
        },
    decreases input.len(),
{
    if input.len() > 0 {
        let before = input.drop_last();
        let n = input.len() as int;
        assert forall|i: int| 0 <= i < before.len() implies (#[trigger] before[i]).frame.len()
            == FRAME_SAMPLES by {
            assert(before[i] == input[i]);
        }
        lemma_open_run(m, before);
        let p = run_state(m, before);
        let h = input.last();
        let c = p.collected(h.frame, h.is_speech, h.at);
        assert(input[n - 1] == h);
        if c.in_speech {
            let lo = open_from(m, input);
            if p.in_speech {
                assert(before[lo] == input[lo]);
                assert(before[n - 1 - p.silence - 1] == input[n - 1 - p.silence - 1]);
            }
            assert forall|k: int| n - c.silence <= k < n implies !(#[trigger] input[k]).is_speech by {
                if k < n - 1 {
                    assert(!before[k].is_speech);
                }
            }
        }
    }
}

/// The limits, seen at the last frame.
proof fn lemma_collected<T>(m: SegmenterModel<T>, input: Seq<Heard<T>>)
    requires
        m.wf(),
        !m.in_speech,
        whole_frames(input),
        input.len() > 0,
        ({
            let h = input.last();
            run_state(m, input.drop_last()).collected(h.frame, h.is_speech, h.at).in_speech
        }),
    ensures
        ({
            let h = input.last();
            let c = run_state(m, input.drop_last()).collected(h.frame, h.is_speech, h.at);
            let lo = open_from(m, input);
            let n = input.len() as int;
            &&& c.limits == m.limits
            &&& 0 <= lo < n
            &&& input[lo].is_speech
            &&& c.start == Some(input[lo].at)
            &&& c.segment.len() == FRAME_SAMPLES * (n - lo)
            &&& c.paused_out() == quiet_at(input, lo, n, m.limits.silence)
            &&& c.filled_up() == (n - lo >= m.limits.max_segment)
        }),
{
    let before = input.drop_last();
    let n = input.len() as int;
    assert forall|i: int| 0 <= i < before.len() implies (#[trigger] before[i]).frame.len()
        == FRAME_SAMPLES by {
        assert(before[i] == input[i]);
    }
    lemma_open_run(m, before);
    let p = run_state(m, before);
    let h = input.last();
    let lo = open_from(m, input);
    let c = p.collected(h.frame, h.is_speech, h.at);
    assert(input[n - 1] == h);
    if p.in_speech {
        assert(before[lo] == input[lo]);
        assert(before[n - 1 - p.silence - 1] == input[n - 1 - p.silence - 1]);
    }
    assert(input[n - c.silence - 1].is_speech);
    assert forall|k: int| n - c.silence <= k < n implies !(#[trigger] input[k]).is_speech by {
        if k < n - 1 {
            assert(!before[k].is_speech);
        }
    }
    if c.silence >= m.limits.silence {
        assert(quiet_at(input, lo, n, m.limits.silence));
    } else {
        assert(n - m.limits.silence <= n - c.silence - 1 < n);
    }
    assert((FRAME_SAMPLES * (n - lo)) / FRAME_SAMPLES as int == n - lo);
}

/// The speech that is counted up to the last frame is that of the frames.
proof fn lemma_speech_of_run<T>(m: SegmenterModel<T>, input: Seq<Heard<T>>)
    requires
        m.wf(),
        !m.in_speech,
        input.len() > 0,
        ({
            let h = input.last();
            run_state(m, input.drop_last()).collected(h.frame, h.is_speech, h.at).in_speech
        }),
    ensures
        ({
            let h = input.last();
            let c = run_state(m, input.drop_last()).collected(h.frame, h.is_speech, h.at);
            c.speech == speech_count(input.subrange(open_from(m, input), input.len() as int))
        }),
{
    let before = input.drop_last();
    let n = input.len() as int;
    speech_is_accounted_for(m, before);
    segments_are_stretches(m, before);
    let lo = open_from(m, input);
    let run = input.subrange(lo, n);
    assert(run.last() == input.last());
    if run_state(m, before).in_speech {
        assert(run.drop_last() =~= before.subrange(lo, n - 1));
    } else {
        assert(run.drop_last().len() == 0);
        assert(speech_count(run.drop_last()) == 0);
    }
}

/// A segment in progress is told of at every tenth of its frames of speech, and only
/// there: with the speech so far, 30 milliseconds for each frame of it, and with the
/// time since its first frame.
pub proof fn drafts_come_at_every_tenth_frame_of_speech<T>(
    m: SegmenterModel<T>,
    input: Seq<Heard<T>>,
)
    requires
        m.wf(),
        !m.in_speech,
        m.since_draft == 0,
        whole_frames(input),
        m.next_id + input.len() <= u64::MAX,
        input.len() > 0,
    ensures
        ({
            let h = input[input.len() - 1];
            let lo = open_from(m, input);
            let count = speech_count(input.subrange(lo, input.len() as int));
            let draft = run_state(m, input.drop_last()).snapshot(h.frame, h.is_speech, h.at);
            &&& !h.is_speech || count % 10 != 0 ==> draft is None
            &&& h.is_speech && count % 10 == 0 ==> {
                &&& draft is Some
                &&& draft->0.active
                &&& draft->0.speech_ms == 30 * count
                &&& ({
                    let ms = time::millis_between(input[lo].at, h.at);
                    &&& ms < 0 ==> draft->0.elapsed_ms == 0
                    &&& 0 <= ms <= u32::MAX ==> draft->0.elapsed_ms == ms
                })
            }
        }),
{
    let before = input.drop_last();
    assert forall|i: int| 0 <= i < before.len() implies (#[trigger] before[i]).frame.len()
        == FRAME_SAMPLES by {
        assert(before[i] == input[i]);
    }
    lemma_drafts_follow_speech(m, before);
    run_keeps_wf(m, before);
    let h = input[input.len() - 1];
    assert(input[input.len() - 1].frame.len() == FRAME_SAMPLES);
    let p = run_state(m, before);
    let c = p.collected(h.frame, h.is_speech, h.at);
    if h.is_speech {
        lemma_collected(m, input);
        lemma_speech_of_run(m, input);
        assert(c.speech * FRAME_MS <= u32::MAX);
    }
}

proof fn lemma_drafts_follow_speech<T>(m: SegmenterModel<T>, input: Seq<Heard<T>>)
    requires
        m.wf(),
        !m.in_speech,
        m.since_draft == 0,
    ensures
        run_state(m, input).since_draft == run_state(m, input).speech % 10,
        !run_state(m, input).in_speech ==> run_state(m, input).speech == 0,
    decreases input.len(),
{
    if input.len() > 0 {
        lemma_drafts_follow_speech(m, input.drop_last());
    }
}

/// A frame is 30 milliseconds of audio at the target rate, and a time in milliseconds
/// counts as the whole frames in it, at least one.
pub proof fn frames_are_thirty_milliseconds(ms: u32)
    ensures
        FRAME_MS == 30,
        TARGET_SR == 16_000,
        FRAME_SAMPLES * 1000 == TARGET_SR * FRAME_MS,
        ms < 30 ==> frames_in(ms) == 1,
        ms >= 30 ==> 30 * frames_in(ms) <= ms < 30 * (frames_in(ms) + 1),
{
}

/// How a detector and a clock answer: for each frame, by its number in the stream,
/// whether it holds speech and when it came.
pub struct Script {
    pub is_speech: spec_fn(int) -> bool,
    pub at: spec_fn(int) -> TimeModel,
}

/// A segmenter in a stream: its state, the segments that it handed out, and how many
/// frames it took.
pub struct Progress<T> {
    pub state: SegmenterModel<T>,
    pub segments: Seq<SegmentModel<T>>,
    pub frames: int,
}

/// A segmenter with more samples behind those that wait.
pub open spec fn with_chunk<T>(m: SegmenterModel<T>, chunk: Seq<T>) -> SegmenterModel<T> {
    SegmenterModel { leftover: m.leftover + chunk, ..m }
}

/// A stream after one frame was taken off the samples that wait.
pub open spec fn one_frame<T>(p: Progress<T>, script: Script) -> Progress<T> {
    let frame = p.state.leftover.take(FRAME_SAMPLES as int);
    let m = SegmenterModel { leftover: p.state.leftover.skip(FRAME_SAMPLES as int), ..p.state };
    let speech = (script.is_speech)(p.frames);
    let now = (script.at)(p.frames);
    Progress {
        state: m.next(frame, speech, now),
        segments: match m.flushed(frame, speech, now) {
            Some(s) => p.segments.push(s),
            None => p.segments,
        },
        frames: p.frames + 1,
    }
}

/// A stream after all whole frames were taken off the samples that wait.
pub open spec fn drained<T>(p: Progress<T>, script: Script) -> Progress<T>
    decreases p.state.leftover.len(),
{
    if p.state.leftover.len() < FRAME_SAMPLES {
        p
    } else {
        drained(one_frame(p, script), script)
    }
}

/// A stream after a chunk of audio.
pub open spec fn after_chunk<T>(p: Progress<T>, chunk: Seq<T>, script: Script) -> Progress<T> {
    drained(Progress { state: with_chunk(p.state, chunk), ..p }, script)
}

/// A stream after some chunks of audio.
pub open spec fn after_chunks<T>(
    p: Progress<T>,
    chunks: Seq<Seq<T>>,
    script: Script,
) -> Progress<T>
    decreases chunks.len(),
{
    if chunks.len() == 0 {
        p
    } else {
        after_chunk(after_chunks(p, chunks.drop_last(), script), chunks.last(), script)
    }
}

/// The samples of chunks, one after the other.
pub open spec fn concatenated<T>(chunks: Seq<Seq<T>>) -> Seq<T>
    decreases chunks.len(),
{
    if chunks.len() == 0 {
        Seq::empty()
    } else {
        concatenated(chunks.drop_last()) + chunks.last()
    }
}

/// Samples that come later make no difference to the frames before them.
proof fn lemma_drain_split<T>(p: Progress<T>, more: Seq<T>, script: Script)
    ensures
        after_chunk(p, more, script) == after_chunk(drained(p, script), more, script),
    decreases p.state.leftover.len(),
{
    if p.state.leftover.len() >= FRAME_SAMPLES {
        let q = one_frame(p, script);
        lemma_drain_split(q, more, script);
        let long = Progress { state: with_chunk(p.state, more), ..p };
        let n = FRAME_SAMPLES as int;
        assert(long.state.leftover.take(n) =~= p.state.leftover.take(n));
        assert(long.state.leftover.skip(n) =~= p.state.leftover.skip(n) + more);
        assert(one_frame(long, script) == Progress { state: with_chunk(q.state, more), ..q });
    }
}

/// How audio is cut into chunks makes no difference: taken chunk by chunk it leaves
/// the segmenter, the segments and the count of frames as if it came in one piece.
pub proof fn chunks_act_as_one<T>(p: Progress<T>, chunks: Seq<Seq<T>>, script: Script)
    requires
        p.state.leftover.len() < FRAME_SAMPLES,
    ensures
        after_chunks(p, chunks, script) == after_chunk(p, concatenated(chunks), script),
    decreases chunks.len(),
{
    if chunks.len() == 0 {
        assert(p.state.leftover + Seq::<T>::empty() =~= p.state.leftover);
    } else {
        let before = concatenated(chunks.drop_last());
        let last = chunks.last();
        chunks_act_as_one(p, chunks.drop_last(), script);
        let waiting = Progress { state: with_chunk(p.state, before), ..p };
        lemma_drain_split(waiting, last, script);
        assert(p.state.leftover + before + last =~= p.state.leftover + (before + last));
    }
}

/// Whether two streams differ at most in the times of their segments.
pub open spec fn same_but_times<T>(p: Progress<T>, q: Progress<T>) -> bool {
    &&& q.state == SegmenterModel { start: q.state.start, ..p.state }
    &&& p.frames == q.frames
    &&& same_segments(p.segments, q.segments)
}

/// Whether segments agree pairwise in id, samples and speech.
pub open spec fn same_segments<T>(a: Seq<SegmentModel<T>>, b: Seq<SegmentModel<T>>) -> bool {
    &&& a.len() == b.len()
    &&& forall|i: int|
        0 <= i < a.len() ==> {
            &&& (#[trigger] a[i]).id == b[i].id
            &&& a[i].samples == b[i].samples
            &&& a[i].speech_ms == b[i].speech_ms
        }
}

proof fn lemma_clock_does_not_matter<T>(p: Progress<T>, q: Progress<T>, a: Script, b: Script)
    requires
        same_but_times(p, q),
        a.is_speech == b.is_speech,
    ensures
        same_but_times(drained(p, a), drained(q, b)),
    decreases p.state.leftover.len(),
{
    if p.state.leftover.len() >= FRAME_SAMPLES {
        assert(same_but_times(one_frame(p, a), one_frame(q, b)));
        lemma_clock_does_not_matter(one_frame(p, a), one_frame(q, b), a, b);
    }
}

/// Two sessions on the same audio hand out the same segments, alike in id, samples
/// and speech, where the detector gives the same verdicts: neither the cut of the
/// audio into chunks nor the clock matters.
pub proof fn same_audio_gives_same_segments<T>(
    m: SegmenterModel<T>,
    first: Seq<Seq<T>>,
    second: Seq<Seq<T>>,
    a: Script,
    b: Script,
)
    requires
        m.leftover.len() < FRAME_SAMPLES,
        concatenated(first) == concatenated(second),
        a.is_speech == b.is_speech,
    ensures
        ({
            let begin = Progress { state: m, segments: Seq::empty(), frames: 0 };
            same_segments(
                after_chunks(begin, first, a).segments,
                after_chunks(begin, second, b).segments,
            )
        }),
{
    let begin = Progress { state: m, segments: Seq::empty(), frames: 0 };
    chunks_act_as_one(begin, first, a);
    chunks_act_as_one(begin, second, b);
    let whole = Progress { state: with_chunk(m, concatenated(first)), ..begin };
    lemma_clock_does_not_matter(whole, whole, a, b);
}

/// The whole frames of audio: frame `i` holds the samples from `i` times the length
/// of a frame on.
pub open spec fn frames_of_audio<T>(samples: Seq<T>) -> Seq<Seq<T>> {
    Seq::new(
        samples.len() / FRAME_SAMPLES as nat,
        |i: int| samples.subrange(FRAME_SAMPLES * i, FRAME_SAMPLES * i + FRAME_SAMPLES),
    )
}

/// The samples behind the last whole frame.
pub open spec fn behind_frames<T>(samples: Seq<T>) -> Seq<T> {
    samples.skip(FRAME_SAMPLES * (samples.len() / FRAME_SAMPLES as nat))
}

/// Frames as a detector and a clock answer to them, the first one with this number
/// in the stream.
pub open spec fn answered<T>(frames: Seq<Seq<T>>, first: int, script: Script) -> Seq<Heard<T>> {
    Seq::new(
        frames.len(),
        |i: int|
            Heard {
                frame: frames[i],
                is_speech: (script.is_speech)(first + i),
                at: (script.at)(first + i),
            },
    )
}

proof fn lemma_first_frame<T>(samples: Seq<T>)
    requires
        samples.len() >= FRAME_SAMPLES,
    ensures
        frames_of_audio(samples) == seq![samples.take(FRAME_SAMPLES as int)] + frames_of_audio(
            samples.skip(FRAME_SAMPLES as int),
        ),
        behind_frames(samples) == behind_frames(samples.skip(FRAME_SAMPLES as int)),
{
    let rest = samples.skip(FRAME_SAMPLES as int);
    let first = samples.take(FRAME_SAMPLES as int);
    let joined = seq![first] + frames_of_audio(rest);
    assert(frames_of_audio(samples).len() == joined.len());
    assert forall|i: int| 0 <= i < joined.len() implies frames_of_audio(samples)[i]
        == #[trigger] joined[i] by {
        if i == 0 {
            assert(frames_of_audio(samples)[0] =~= first);
        } else {
            assert(frames_of_audio(samples)[i] =~= frames_of_audio(rest)[i - 1]);
        }
    }
    assert(frames_of_audio(samples) =~= joined);
    assert(behind_frames(samples) =~= behind_frames(rest));
}

/// Taking the frames off the samples that wait, one by one, is a run over them.
proof fn lemma_drained_is_a_run<T>(
    m: SegmenterModel<T>,
    done: Seq<Heard<T>>,
    waiting: Seq<T>,
    script: Script,
)
    ensures
        ({
            let p = Progress {
                state: SegmenterModel { leftover: waiting, ..run_state(m, done) },
                segments: run_segments(m, done),
                frames: done.len() as int,
            };
            let all = done + answered(frames_of_audio(waiting), done.len() as int, script);
            drained(p, script) == Progress {
                state: SegmenterModel { leftover: behind_frames(waiting), ..run_state(m, all) },
                segments: run_segments(m, all),
                frames: all.len() as int,
            }
        }),
    decreases waiting.len(),
{
    let n = FRAME_SAMPLES as int;
    let all = done + answered(frames_of_audio(waiting), done.len() as int, script);
    if waiting.len() < FRAME_SAMPLES {
        assert(all =~= done);
        assert(behind_frames(waiting) =~= waiting);
    } else {
        lemma_first_frame(waiting);
        let first = Heard {
            frame: waiting.take(n),
            is_speech: (script.is_speech)(done.len() as int),
            at: (script.at)(done.len() as int),
        };
        let more = done.push(first);
        assert(more.drop_last() =~= done);
        lemma_drained_is_a_run(m, more, waiting.skip(n), script);
        assert(all =~= more + answered(
            frames_of_audio(waiting.skip(n)),
            more.len() as int,
            script,
        ));
    }
}

/// A stream that comes in chunks hands out the segments of the run over its whole
/// frames, in which the samples that waited come first, and leaves the segmenter as
/// that run does; the samples behind the last whole frame wait.
pub proof fn chunks_are_a_run<T>(m: SegmenterModel<T>, chunks: Seq<Seq<T>>, script: Script)
    requires
        m.leftover.len() < FRAME_SAMPLES,
    ensures
        ({
            let begin = Progress { state: m, segments: Seq::empty(), frames: 0 };
            let samples = m.leftover + concatenated(chunks);
            let input = answered(frames_of_audio(samples), 0, script);
            after_chunks(begin, chunks, script) == Progress {
                state: SegmenterModel { leftover: behind_frames(samples), ..run_state(m, input) },
                segments: run_segments(m, input),
                frames: input.len() as int,
            }
        }),
        whole_frames(
            answered(frames_of_audio(m.leftover + concatenated(chunks)), 0, script),
        ),
{
    let begin = Progress { state: m, segments: Seq::empty(), frames: 0 };
    let samples = m.leftover + concatenated(chunks);
    let none = Seq::<Heard<T>>::empty();
    chunks_act_as_one(begin, chunks, script);
    lemma_drained_is_a_run(m, none, samples, script);
    let input = answered(frames_of_audio(samples), 0, script);
    assert(none + input =~= input);
}

/// Pausing forgets the segment in progress: what comes later holds nothing of it,
/// and ids go on where they were.
pub proof fn pause_forgets<T>(m: SegmenterModel<T>)
    requires
        m.wf(),
    ensures
        m.discarded().wf(),
        !m.discarded().in_speech,
        m.discarded().segment.len() == 0,
        m.discarded().leftover.len() == 0,
        m.discarded().next_id == m.next_id,
        m.discarded().limits == m.limits,
        m.discarded().since_draft == m.since_draft,
{
}

/// A segmenter that has heard nothing holds nothing, is outside of speech, and gives
/// its first segment the id zero.
pub proof fn a_fresh_segmenter_is_empty<T>(limits: Limits)
    ensures
        ({
            let m = fresh::<T>(limits);
            &&& m.limits == limits
            &&& m.leftover.len() == 0
            &&& m.segment.len() == 0
            &&& !m.in_speech
            &&& m.speech == 0
            &&& m.silence == 0
            &&& m.since_draft == 0
            &&& m.next_id == 0
        }),
{
}

/// The detector takes frames of 10, 20 or 30 milliseconds, those of the segmenter
/// among them.
pub proof fn frames_that_the_detector_takes(len: int)
    ensures
        valid_frame(TARGET_SR as int, len) <==> len == 160 || len == 320 || len == 480,
        valid_frame(TARGET_SR as int, FRAME_SAMPLES as int),
{
}

} // verus!
