//! The engine core: session state, the bus-event pump, and transport
//! decisions.
//!
//! The host owns the real pipeline and drains its message queue; each
//! drained message reaches this module as a plain value, and everything the
//! engine decides — classification, tag latching, spectral capture, event
//! emission, error recording — is the verified transition `step_msg`. The
//! pump handles at most `PUMP_MAX` messages per call to bound poll latency,
//! and flags every tenth poll for an output-format probe.

use vstd::prelude::*;
use crate::ring::{
    SpectrumRing,
    SpectrumFrame,
    FrameModel,
    spec_push,
    spec_pull,
    next_seq,
    imin,
    frame_models,
    BANDS_MAX,
};
use crate::tags::{
    TagState,
    TagModel,
    tag_applied,
    tag_changed,
    tag_event_text,
    build_tag_event,
    tag_value,
    spec_tag_value,
    rate_depth_from_codec_text,
    spec_rate_from_codec,
    spec_depth_from_codec,
    upd_pos,
};
use crate::spectrum::{
    FrameTimes,
    TsKind,
    spec_mag_block,
    mag_block,
    mag_vals,
    mag_values,
    spec_resolve_time,
    resolve_time,
    spec_ts_label,
    ts_label,
    spec_secs3,
    secs3,
};
use crate::strutil::{
    lower_seq,
    to_lower,
    first_sub,
    find_first_sub,
    str_chars,
};
use crate::numtext::{spec_parse_i32, parse_i32_range, spec_dec, u64_to_chars};
use crate::tags::append_chars;

verus! {

/// Most messages one pump call drains, bounding poll latency.
pub const PUMP_MAX: usize = 128;

/// An event handed to the host's callback during a poll.
pub enum EngineEvent {
    State(Vec<char>),
    Error(Vec<char>),
    Eos,
    Tag(Vec<char>),
}

/// The model of an event.
pub enum EvModel {
    State(Seq<char>),
    Error(Seq<char>),
    Eos,
    Tag(Seq<char>),
}

impl View for EngineEvent {
    type V = EvModel;

    open spec fn view(&self) -> EvModel {
        match self {
            EngineEvent::State(t) => EvModel::State(t@),
            EngineEvent::Error(t) => EvModel::Error(t@),
            EngineEvent::Eos => EvModel::Eos,
            EngineEvent::Tag(t) => EvModel::Tag(t@),
        }
    }
}

impl EngineEvent {
    /// The numeric kind of the event, as the host callback receives it.
    pub fn code(&self) -> (r: i32)
        ensures
            r == spec_event_code(self@),
    {
        match self {
            EngineEvent::State(_) => 1,
            EngineEvent::Error(_) => 2,
            EngineEvent::Eos => 3,
            EngineEvent::Tag(_) => 4,
        }
    }
}

/// The numeric kind of an event: state 1, error 2, end-of-stream 3, tag 4.
pub open spec fn spec_event_code(e: EvModel) -> i32 {
    match e {
        EvModel::State(_) => 1,
        EvModel::Error(_) => 2,
        EvModel::Eos => 3,
        EvModel::Tag(_) => 4,
    }
}

/// The models of a sequence of events.
pub open spec fn evs(s: Seq<EngineEvent>) -> Seq<EvModel> {
    s.map_values(|e: EngineEvent| e@)
}

/// One drained pipeline message, as plain values.
pub enum BusMessage {
    Eos,
    ErrorMsg(Vec<char>),
    StateChanged { from_pipeline: bool, state: Vec<char> },
    Element { name: Vec<char>, body: Vec<char>, times: FrameTimes, msg_ts_ns: Option<u64>, query_pos_ns: Option<u64> },
    TagMsg(Vec<char>),
}

/// The model of a message.
pub enum MsgModel {
    Eos,
    ErrorMsg(Seq<char>),
    StateChanged { from_pipeline: bool, state: Seq<char> },
    Element { name: Seq<char>, body: Seq<char>, times: FrameTimes, msg_ts_ns: Option<u64>, query_pos_ns: Option<u64> },
    TagMsg(Seq<char>),
}

impl View for BusMessage {
    type V = MsgModel;

    open spec fn view(&self) -> MsgModel {
        match self {
            BusMessage::Eos => MsgModel::Eos,
            BusMessage::ErrorMsg(t) => MsgModel::ErrorMsg(t@),
            BusMessage::StateChanged { from_pipeline, state } => MsgModel::StateChanged {
                from_pipeline: *from_pipeline,
                state: state@,
            },
            BusMessage::Element { name, body, times, msg_ts_ns, query_pos_ns } => MsgModel::Element {
                name: name@,
                body: body@,
                times: *times,
                msg_ts_ns: *msg_ts_ns,
                query_pos_ns: *query_pos_ns,
            },
            BusMessage::TagMsg(t) => MsgModel::TagMsg(t@),
        }
    }
}

/// The model of the whole engine state.
pub struct EngineModel {
    pub uri: Seq<char>,
    pub last_error: Option<Seq<char>>,
    pub tags: TagModel,
    pub source_rate: i32,
    pub source_depth: i32,
    pub frames: Seq<FrameModel>,
    pub cur_seq: u64,
    pub last_pos_ns: u64,
    pub seen: u64,
    pub accepted: u64,
    pub elem: u64,
    pub tick: u64,
    pub enabled: bool,
}

/// The engine's session state: source, last error, latched tags, spectral
/// history and counters.
pub struct Engine {
    pub uri: Vec<char>,
    pub last_error: Option<Vec<char>>,
    pub tags: TagState,
    pub source_rate: i32,
    pub source_depth: i32,
    pub ring: SpectrumRing,
    pub last_pos_ns: u64,
    pub seen_msgs: u64,
    pub accepted_msgs: u64,
    pub elem_msgs: u64,
    pub probe_tick: u64,
    pub spectrum_enabled: bool,
}

impl View for Engine {
    type V = EngineModel;

    open spec fn view(&self) -> EngineModel {
        EngineModel {
            uri: self.uri@,
            last_error: match self.last_error {
                Some(ref t) => Some(t@),
                None => None,
            },
            tags: self.tags@,
            source_rate: self.source_rate,
            source_depth: self.source_depth,
            frames: self.ring.live(),
            cur_seq: self.ring.spec_cur_seq(),
            last_pos_ns: self.last_pos_ns,
            seen: self.seen_msgs,
            accepted: self.accepted_msgs,
            elem: self.elem_msgs,
            tick: self.probe_tick,
            enabled: self.spectrum_enabled,
        }
    }
}

/// A counter incremented with wrap-around.
pub open spec fn wrap_inc(x: u64) -> u64 {
    if x == u64::MAX {
        0
    } else {
        (x + 1) as u64
    }
}

/// Increment a counter with wrap-around.
pub fn wrap_inc_exec(x: u64) -> (r: u64)
    ensures
        r == wrap_inc(x),
{
    if x == u64::MAX {
        0
    } else {
        x + 1
    }
}

/// The rate-limited counts line: how many spectral messages were seen and
/// how many yielded frames.
pub open spec fn spec_diag_counts(seen: u64, acc: u64) -> Seq<char> {
    "spectrum-msgs="@ + spec_dec(seen as int) + " parsed="@ + spec_dec(acc as int)
}

/// The rate-limited timestamp line: source of the frame time, the frame
/// time, the queried position and their difference, each in seconds. The
/// position is the one sampled when the message was drained.
pub open spec fn spec_diag_ts(k: TsKind, frame_ns: u64, q: Option<u64>) -> Seq<char> {
    "spectrum-ts src="@ + spec_ts_label(k) + " frame="@ + spec_secs3(frame_ns) + "s query="@ + (
    match q {
        Some(v) => spec_secs3(v),
        None => "-1.000"@,
    }) + "s delta="@ + (match q {
        Some(v) => if v >= frame_ns {
            spec_secs3((v - frame_ns) as u64)
        } else {
            seq!['-'] + spec_secs3((frame_ns - v) as u64)
        },
        None => "-1.000"@,
    }) + "s"@
}

/// The rate-limited frame-count line.
pub open spec fn spec_diag_frames(acc: u64) -> Seq<char> {
    "spectrum-frames="@ + spec_dec(acc as int)
}

/// The spectral part of handling an element message named `name` with
/// structure text `body`: counting, parsing, the frame write, and the
/// rate-limited diagnostics.
pub open spec fn spectrum_step(
    m: EngineModel,
    name: Seq<char>,
    body: Seq<char>,
    times: FrameTimes,
    msg_ts_ns: Option<u64>,
    query_pos_ns: Option<u64>,
) -> (EngineModel, Seq<EvModel>) {
    if !m.enabled || first_sub(lower_seq(name), "spectrum"@) == lower_seq(name).len() {
        (m, Seq::empty())
    } else {
        let seen1 = wrap_inc(m.seen);
        let m1 = EngineModel { seen: seen1, ..m };
        let vals = match spec_mag_block(body) {
            Some(b) => mag_vals(b),
            None => Seq::empty(),
        };
        if vals.len() == 0 {
            let es = if seen1 as int % 120 == 0 {
                seq![EvModel::State(spec_diag_counts(seen1, m.accepted))]
            } else {
                Seq::<EvModel>::empty()
            };
            (m1, es)
        } else {
            let taken = vals.take(imin(BANDS_MAX as int, vals.len() as int));
            let rt = spec_resolve_time(times, msg_ts_ns, query_pos_ns, m.last_pos_ns);
            let acc1 = wrap_inc(m.accepted);
            let m2 = EngineModel {
                frames: spec_push(m.frames, m.cur_seq, rt.0, taken),
                cur_seq: next_seq(m.cur_seq),
                last_pos_ns: rt.0,
                accepted: acc1,
                ..m1
            };
            let es = if acc1 as int % 120 == 0 {
                seq![
                    EvModel::State(spec_diag_ts(rt.1, rt.0, query_pos_ns)),
                    EvModel::State(spec_diag_frames(acc1)),
                ]
            } else {
                Seq::<EvModel>::empty()
            };
            (m2, es)
        }
    }
}

/// The tag part of handling a tag message: field extraction from the dump
/// text, source-format latching, and the change-gated tag event.
pub open spec fn tag_step(m: EngineModel, text: Seq<char>) -> (EngineModel, Seq<EvModel>) {
    let codec = match spec_tag_value(text, "audio-codec"@) {
        Some(c) => Some(c),
        None => spec_tag_value(text, "codec"@),
    };
    let bitrate = match spec_tag_value(text, "bitrate"@) {
        Some(v) => match spec_parse_i32(v) {
            Some(x) => if x > 0 {
                Some(x)
            } else {
                None
            },
            None => None,
        },
        None => None,
    };
    let sr1 = upd_pos(m.source_rate, spec_rate_from_codec(text));
    let sd1 = upd_pos(m.source_depth, spec_depth_from_codec(text));
    let sr2 = match codec {
        Some(c) => upd_pos(sr1, spec_rate_from_codec(c)),
        None => sr1,
    };
    let sd2 = match codec {
        Some(c) => upd_pos(sd1, spec_depth_from_codec(c)),
        None => sd1,
    };
    let changed = tag_changed(m.tags, codec, bitrate, None, None);
    let tags1 = tag_applied(m.tags, codec, bitrate, None, None);
    let m1 = EngineModel { tags: tags1, source_rate: sr2, source_depth: sd2, ..m };
    let es = if changed {
        seq![EvModel::Tag(tag_event_text(tags1))]
    } else {
        Seq::<EvModel>::empty()
    };
    (m1, es)
}

/// How one drained message changes the engine and which events it emits.
pub open spec fn step_msg(m: EngineModel, msg: MsgModel) -> (EngineModel, Seq<EvModel>) {
    match msg {
        MsgModel::Eos => (m, seq![EvModel::Eos]),
        MsgModel::ErrorMsg(t) => (
            EngineModel { last_error: Some(t), ..m },
            seq![EvModel::Error(t)],
        ),
        MsgModel::StateChanged { from_pipeline, state } => (
            m,
            if from_pipeline {
                seq![EvModel::State(state)]
            } else {
                Seq::<EvModel>::empty()
            },
        ),
        MsgModel::Element { name, body, times, msg_ts_ns, query_pos_ns } => {
            let elem1 = wrap_inc(m.elem);
            let e0 = if elem1 <= 4 || elem1 as int % 240 == 0 {
                seq![EvModel::State(Seq::<char>::empty() + "elem-msg:"@ + name)]
            } else {
                Seq::<EvModel>::empty()
            };
            let sp = spectrum_step(
                EngineModel { elem: elem1, ..m },
                name,
                body,
                times,
                msg_ts_ns,
                query_pos_ns,
            );
            (sp.0, e0 + sp.1)
        },
        MsgModel::TagMsg(t) => tag_step(m, t),
    }
}

/// Handling a run of messages in order, accumulating their events.
pub open spec fn pump_fold(m: EngineModel, msgs: Seq<MsgModel>) -> (EngineModel, Seq<EvModel>)
    decreases msgs.len(),
{
    if msgs.len() == 0 {
        (m, Seq::empty())
    } else {
        let s1 = step_msg(m, msgs[0]);
        let s2 = pump_fold(s1.0, msgs.drop_first());
        (s2.0, s1.1 + s2.1)
    }
}

/// Folding one more message processes it after the run.
pub proof fn lemma_pump_fold_push(m: EngineModel, msgs: Seq<MsgModel>, x: MsgModel)
    ensures
        pump_fold(m, msgs.push(x)).0 == step_msg(pump_fold(m, msgs).0, x).0,
        pump_fold(m, msgs.push(x)).1 == pump_fold(m, msgs).1 + step_msg(
            pump_fold(m, msgs).0,
            x,
        ).1,
    decreases msgs.len(),
{
    if msgs.len() == 0 {
        assert(msgs.push(x)[0] == x);
        assert(msgs.push(x).drop_first() =~= Seq::<MsgModel>::empty());
        assert(pump_fold(step_msg(m, x).0, Seq::<MsgModel>::empty()).0 == step_msg(m, x).0);
        assert(pump_fold(step_msg(m, x).0, Seq::<MsgModel>::empty()).1 =~= Seq::<EvModel>::empty());
        assert(pump_fold(m, msgs).0 == m);
        assert(pump_fold(m, msgs).1 =~= Seq::<EvModel>::empty());
        assert(pump_fold(m, msgs).1 + step_msg(pump_fold(m, msgs).0, x).1 =~= step_msg(m, x).1
            + Seq::<EvModel>::empty());
    } else {
        assert(msgs.push(x)[0] == msgs[0]);
        assert(msgs.push(x).drop_first() =~= msgs.drop_first().push(x));
        lemma_pump_fold_push(step_msg(m, msgs[0]).0, msgs.drop_first(), x);
        assert(pump_fold(m, msgs.push(x)).1 =~= pump_fold(m, msgs).1 + step_msg(
            pump_fold(m, msgs).0,
            x,
        ).1);
    }
}

/// The models of a run of messages.
pub open spec fn msgs_models(s: Seq<BusMessage>) -> Seq<MsgModel> {
    s.map_values(|m: BusMessage| m@)
}

impl Engine {
    /// Well-formed engine: the frame ring is well-formed.
    pub open spec fn wf(&self) -> bool {
        self.ring.wf()
    }

    /// A fresh engine: no source, no error, nothing latched, no frames,
    /// spectral capture enabled.
    pub fn new() -> (r: Self)
        ensures
            r.wf(),
            r@.uri.len() == 0,
            r@.last_error is None,
            r@.tags.codec.len() == 0,
            r@.tags.bitrate == 0,
            r@.tags.rate == 0,
            r@.tags.depth == 0,
            r@.source_rate == 0,
            r@.source_depth == 0,
            r@.frames.len() == 0,
            r@.cur_seq == 0,
            r@.last_pos_ns == 0,
            r@.seen == 0,
            r@.accepted == 0,
            r@.elem == 0,
            r@.tick == 0,
            r@.enabled,
    {
        Engine {
            uri: Vec::new(),
            last_error: None,
            tags: TagState::new(),
            source_rate: 0,
            source_depth: 0,
            ring: SpectrumRing::new(),
            last_pos_ns: 0,
            seen_msgs: 0,
            accepted_msgs: 0,
            elem_msgs: 0,
            probe_tick: 0,
            spectrum_enabled: true,
        }
    }

    /// Record an error message for the last-error accessor.
    pub fn record_error(&mut self, text: Vec<char>)
        requires
            old(self).wf(),
        ensures
            final(self).wf(),
            final(self)@ == (EngineModel { last_error: Some(text@), ..old(self)@ }),
    {
        self.last_error = Some(text);
    }

    /// The last recorded error, empty when none.
    pub fn last_error_text(&self) -> (r: Vec<char>)
        ensures
            match self@.last_error {
                Some(t) => r@ == t,
                None => r@.len() == 0,
            },
    {
        match &self.last_error {
            Some(t) => crate::strutil::subvec(t, 0, t.len()),
            None => Vec::new(),
        }
    }

    /// Swap the source: the pipeline is stopped by the host first; the
    /// engine forgets the previous track's tags and source format so no
    /// stale metadata leaks across tracks.
    pub fn set_uri(&mut self, uri: Vec<char>)
        requires
            old(self).wf(),
        ensures
            final(self).wf(),
            final(self)@ == (EngineModel {
                uri: uri@,
                tags: TagModel { codec: Seq::empty(), bitrate: 0, rate: 0, depth: 0 },
                source_rate: 0,
                source_depth: 0,
                ..old(self)@
            }),
    {
        self.uri = uri;
        self.tags.reset();
        self.source_rate = 0;
        self.source_depth = 0;
        proof {
            assert(self.tags@.codec =~= Seq::<char>::empty());
        }
    }

    /// Whether play may proceed: with no source loaded it may not; the
    /// error is recorded and an error event returned for the host to emit.
    pub fn check_play(&mut self) -> (r: Option<EngineEvent>)
        requires
            old(self).wf(),
        ensures
            final(self).wf(),
            old(self)@.uri.len() == 0 ==> (r matches Some(e) && e@ == EvModel::Error(
                "rac_play: empty uri"@,
            ) && final(self)@ == (EngineModel {
                last_error: Some("rac_play: empty uri"@),
                ..old(self)@
            })),
            old(self)@.uri.len() > 0 ==> r is None && final(self)@ == old(self)@,
    {
        if self.uri.len() == 0 {
            let t = str_chars("rac_play: empty uri");
            self.last_error = Some(t);
            let t2 = str_chars("rac_play: empty uri");
            Some(EngineEvent::Error(t2))
        } else {
            None
        }
    }

    /// The outcome of a host-side pipeline state change: on success a state
    /// event with the new state's name and code 0; on failure the error is
    /// recorded and an error event returned with code -4.
    pub fn state_change_outcome(&mut self, ok: bool, state_name: Vec<char>, err_text: Vec<char>)
        -> (r: (i32, EngineEvent))
        requires
            old(self).wf(),
        ensures
            final(self).wf(),
            ok ==> r.0 == 0 && r.1@ == EvModel::State(state_name@) && final(self)@ == old(self)@,
            !ok ==> r.0 == -4 && r.1@ == EvModel::Error(err_text@) && final(self)@ == (EngineModel {
                last_error: Some(err_text@),
                ..old(self)@
            }),
    {
        if ok {
            (0, EngineEvent::State(state_name))
        } else {
            let copy = crate::strutil::subvec(&err_text, 0, err_text.len());
            proof {
                assert(copy@ =~= err_text@);
            }
            self.last_error = Some(copy);
            (-4, EngineEvent::Error(err_text))
        }
    }

    /// Enable or disable spectral capture; disabling drops the history but
    /// keeps the sequence counter, so ids are never reused.
    pub fn set_spectrum_enabled(&mut self, enabled: bool)
        requires
            old(self).wf(),
        ensures
            final(self).wf(),
            final(self)@.enabled == enabled,
            enabled ==> final(self)@ == (EngineModel { enabled, ..old(self)@ }),
            !enabled ==> final(self)@ == (EngineModel {
                enabled,
                frames: Seq::empty(),
                ..old(self)@
            }),
    {
        self.spectrum_enabled = enabled;
        if !enabled {
            self.ring.clear();
        }
    }

    /// Delta-pull: the live frames with sequence id above `since`, oldest
    /// first, bounded by the caller's limits.
    pub fn pull_frames(&self, since: u64, max_frames: usize, max_bands: usize) -> (r: Vec<
        SpectrumFrame,
    >)
        requires
            self.wf(),
        ensures
            frame_models(r@) == spec_pull(
                self@.frames,
                since,
                max_frames as int,
                max_bands as int,
            ),
    {
        self.ring.pull_since(since, max_frames, max_bands)
    }

    /// The id of the last accepted frame, 0 before the first.
    pub fn current_seq(&self) -> (r: u64)
        ensures
            r == self@.cur_seq,
    {
        self.ring.current_seq()
    }

    /// The most recent frame, if any.
    pub fn latest_frame(&self) -> (r: Option<&SpectrumFrame>)
        ensures
            match r {
                Some(f) => self@.frames.len() > 0 && f@ == self@.frames.last(),
                None => self@.frames.len() == 0,
            },
    {
        self.ring.last_frame()
    }

    /// Latch a probed output format through the same change-gated path as
    /// tag updates; a tag event is returned only when something changed.
    pub fn note_output_format(&mut self, rate: Option<i32>, depth: Option<i32>) -> (r: Option<
        EngineEvent,
    >)
        requires
            old(self).wf(),
        ensures
            final(self).wf(),
            final(self)@ == (EngineModel {
                tags: tag_applied(old(self)@.tags, None, None, rate, depth),
                ..old(self)@
            }),
            tag_changed(old(self)@.tags, None, None, rate, depth) ==> (r matches Some(e) && e@
                == EvModel::Tag(tag_event_text(tag_applied(old(self)@.tags, None, None, rate, depth)))),
            !tag_changed(old(self)@.tags, None, None, rate, depth) ==> r is None,
    {
        let changed = self.tags.apply_update(None, None, rate, depth);
        if changed {
            let text = build_tag_event(&self.tags);
            Some(EngineEvent::Tag(text))
        } else {
            None
        }
    }

    /// Handle one drained message: the verified transition `step_msg`.
    pub fn handle_message(&mut self, msg: BusMessage) -> (r: Vec<EngineEvent>)
        requires
            old(self).wf(),
        ensures
            final(self).wf(),
            final(self)@ == step_msg(old(self)@, msg@).0,
            evs(r@) == step_msg(old(self)@, msg@).1,
    {
        let ghost m0 = self@;
        let mut out: Vec<EngineEvent> = Vec::new();
        match msg {
            BusMessage::Eos => {
                out.push(EngineEvent::Eos);
                proof {
                    assert(evs(out@) =~= step_msg(m0, MsgModel::Eos).1);
                }
            },
            BusMessage::ErrorMsg(t) => {
                let copy = crate::strutil::subvec(&t, 0, t.len());
                proof {
                    assert(copy@ =~= t@);
                }
                self.last_error = Some(copy);
                out.push(EngineEvent::Error(t));
                proof {
                    assert(evs(out@) =~= step_msg(m0, msg@).1);
                }
            },
            BusMessage::StateChanged { from_pipeline, state } => {
                if from_pipeline {
                    out.push(EngineEvent::State(state));
                }
                proof {
                    assert(evs(out@) =~= step_msg(m0, msg@).1);
                }
            },
            BusMessage::Element { name, body, times, msg_ts_ns, query_pos_ns } => {
                self.elem_msgs = wrap_inc_exec(self.elem_msgs);
                if self.elem_msgs <= 4 || self.elem_msgs % 240 == 0 {
                    let mut t = str_chars("elem-msg:");
                    append_chars(&mut t, &name);
                    proof {
                        assert(t@ =~= Seq::<char>::empty() + "elem-msg:"@ + name@);
                    }
                    out.push(EngineEvent::State(t));
                }
                let ghost m1 = self@;
                let ghost e0 = evs(out@);
                self.spectrum_element(&name, &body, &times, msg_ts_ns, query_pos_ns, &mut out);
                proof {
                    assert(evs(out@) =~= e0 + spectrum_step(
                        m1,
                        name@,
                        body@,
                        times,
                        msg_ts_ns,
                        query_pos_ns,
                    ).1);
                    assert(evs(out@) =~= step_msg(m0, msg@).1);
                }
            },
            BusMessage::TagMsg(t) => {
                self.tag_message(&t, &mut out);
                proof {
                    assert(evs(out@) =~= step_msg(m0, MsgModel::TagMsg(t@)).1);
                }
            },
        }
        out
    }

    /// The spectral part of an element message.
    fn spectrum_element(
        &mut self,
        name: &Vec<char>,
        body: &Vec<char>,
        times: &FrameTimes,
        msg_ts_ns: Option<u64>,
        query_pos_ns: Option<u64>,
        out: &mut Vec<EngineEvent>,
    )
        requires
            old(self).wf(),
        ensures
            final(self).wf(),
            final(self)@ == spectrum_step(
                old(self)@,
                name@,
                body@,
                *times,
                msg_ts_ns,
                query_pos_ns,
            ).0,
            evs(final(out)@) == evs(old(out)@) + spectrum_step(
                old(self)@,
                name@,
                body@,
                *times,
                msg_ts_ns,
                query_pos_ns,
            ).1,
    {
        let ghost m0 = self@;
        let lowered = to_lower(name);
        let word = str_chars("spectrum");
        proof {
            reveal_strlit("spectrum");
        }
        let found = find_first_sub(&lowered, &word) < lowered.len();
        if !self.spectrum_enabled || !found {
            proof {
                assert(evs(out@) =~= evs(out@) + Seq::<EvModel>::empty());
            }
            return ;
        }
        self.seen_msgs = wrap_inc_exec(self.seen_msgs);
        let vals: Vec<i64> = match mag_block(body) {
            Some(block) => mag_values(&block),
            None => Vec::new(),
        };
        proof {
            assert(vals@ == (match spec_mag_block(body@) {
                Some(b) => mag_vals(b),
                None => Seq::<i64>::empty(),
            }));
        }
        if vals.len() == 0 {
            if self.seen_msgs % 120 == 0 {
                let t = self.diag_counts();
                out.push(EngineEvent::State(t));
                proof {
                    assert(evs(out@) =~= evs(old(out)@) + spectrum_step(
                        m0,
                        name@,
                        body@,
                        *times,
                        msg_ts_ns,
                        query_pos_ns,
                    ).1);
                }
            } else {
                proof {
                    assert(evs(out@) =~= evs(old(out)@) + Seq::<EvModel>::empty());
                }
            }
            return ;
        }
        let mut vals = vals;
        let ghost all_vals = vals@;
        if vals.len() > BANDS_MAX {
            vals.truncate(BANDS_MAX);
        }
        proof {
            assert(vals@ =~= all_vals.take(imin(BANDS_MAX as int, all_vals.len() as int)));
        }
        let rt = resolve_time(times, msg_ts_ns, query_pos_ns, self.last_pos_ns);
        self.ring.push_frame(rt.0, vals);
        self.last_pos_ns = rt.0;
        self.accepted_msgs = wrap_inc_exec(self.accepted_msgs);
        if self.accepted_msgs % 120 == 0 {
            let t1 = diag_ts_exec(rt.1, rt.0, query_pos_ns);
            out.push(EngineEvent::State(t1));
            let mut t2 = str_chars("spectrum-frames=");
            let d = u64_to_chars(self.accepted_msgs);
            append_chars(&mut t2, &d);
            proof {
                assert(t2@ =~= spec_diag_frames(self.accepted_msgs));
            }
            out.push(EngineEvent::State(t2));
            proof {
                assert(evs(out@) =~= evs(old(out)@) + spectrum_step(
                    m0,
                    name@,
                    body@,
                    *times,
                    msg_ts_ns,
                    query_pos_ns,
                ).1);
            }
        } else {
            proof {
                assert(evs(out@) =~= evs(old(out)@) + Seq::<EvModel>::empty());
            }
        }
    }

    /// The rate-limited counts line for the current counters.
    fn diag_counts(&self) -> (r: Vec<char>)
        ensures
            r@ == spec_diag_counts(self.seen_msgs, self.accepted_msgs),
    {
        let mut t = str_chars("spectrum-msgs=");
        let d1 = u64_to_chars(self.seen_msgs);
        append_chars(&mut t, &d1);
        let mid = str_chars(" parsed=");
        append_chars(&mut t, &mid);
        let d2 = u64_to_chars(self.accepted_msgs);
        append_chars(&mut t, &d2);
        proof {
            assert(t@ =~= spec_diag_counts(self.seen_msgs, self.accepted_msgs));
        }
        t
    }

    /// The tag part of a tag message.
    fn tag_message(&mut self, text: &Vec<char>, out: &mut Vec<EngineEvent>)
        requires
            old(self).wf(),
        ensures
            final(self).wf(),
            final(self)@ == tag_step(old(self)@, text@).0,
            evs(final(out)@) == evs(old(out)@) + tag_step(old(self)@, text@).1,
    {
        let ghost m0 = self@;
        let key1 = str_chars("audio-codec");
        let key2 = str_chars("codec");
        let key3 = str_chars("bitrate");
        let codec = match tag_value(text, &key1) {
            Some(c) => Some(c),
            None => tag_value(text, &key2),
        };
        let bitrate = match tag_value(text, &key3) {
            Some(v) => {
                match parse_i32_range(&v, 0, v.len()) {
                    Some(x) => {
                        proof {
                            assert(v@.subrange(0, v@.len() as int) =~= v@);
                        }
                        if x > 0 {
                            Some(x)
                        } else {
                            None
                        }
                    },
                    None => {
                        proof {
                            assert(v@.subrange(0, v@.len() as int) =~= v@);
                        }
                        None
                    },
                }
            },
            None => None,
        };
        let (tr, td) = rate_depth_from_codec_text(text);
        match tr {
            Some(v) => {
                if v > 0 {
                    self.source_rate = v;
                }
            },
            None => {},
        }
        match td {
            Some(v) => {
                if v > 0 {
                    self.source_depth = v;
                }
            },
            None => {},
        }
        match &codec {
            Some(c) => {
                let (sr, sd) = rate_depth_from_codec_text(c);
                match sr {
                    Some(v) => {
                        if v > 0 {
                            self.source_rate = v;
                        }
                    },
                    None => {},
                }
                match sd {
                    Some(v) => {
                        if v > 0 {
                            self.source_depth = v;
                        }
                    },
                    None => {},
                }
            },
            None => {},
        }
        let changed = self.tags.apply_update(codec, bitrate, None, None);
        if changed {
            let t = build_tag_event(&self.tags);
            out.push(EngineEvent::Tag(t));
            proof {
                assert(evs(out@) =~= evs(old(out)@) + tag_step(m0, text@).1);
            }
        } else {
            proof {
                assert(evs(out@) =~= evs(old(out)@) + Seq::<EvModel>::empty());
            }
        }
    }

    /// Drain a run of messages: at most `PUMP_MAX` of them are handled, in
    /// order; the poll tick advances and every tenth poll asks the host to
    /// probe the negotiated output format.
    pub fn pump(&mut self, msgs: Vec<BusMessage>) -> (r: (Vec<EngineEvent>, usize, bool))
        requires
            old(self).wf(),
        ensures
            final(self).wf(),
            r.1 == imin(PUMP_MAX as int, msgs@.len() as int),
            final(self)@ == (EngineModel {
                tick: wrap_inc(pump_fold(old(self)@, msgs_models(msgs@).take(r.1 as int)).0.tick),
                ..pump_fold(old(self)@, msgs_models(msgs@).take(r.1 as int)).0
            }),
            evs(r.0@) == pump_fold(old(self)@, msgs_models(msgs@).take(r.1 as int)).1,
            r.2 == (wrap_inc(pump_fold(old(self)@, msgs_models(msgs@).take(r.1 as int)).0.tick)
                as int % 10 == 0),
    {
        let ghost m0 = self@;
        let ghost orig = msgs@;
        let ghost models = msgs_models(orig);
        let mut events: Vec<EngineEvent> = Vec::new();
        let mut msgs = msgs;
        let total = msgs.len();
        let limit: usize = if total < PUMP_MAX {
            total
        } else {
            PUMP_MAX
        };
        let mut i: usize = 0;
        proof {
            assert(models.take(0) =~= Seq::<MsgModel>::empty());
            assert(msgs@ =~= orig.skip(0));
        }
        while i < limit
            invariant
                self.wf(),
                0 <= i <= limit,
                limit == imin(PUMP_MAX as int, models.len() as int),
                models == msgs_models(orig),
                msgs@ == orig.skip(i as int),
                self@ == pump_fold(m0, models.take(i as int)).0,
                evs(events@) == pump_fold(m0, models.take(i as int)).1,
            decreases limit - i,
        {
            let ghost evs0 = evs(events@);
            let msg = msgs.remove(0);
            proof {
                assert(orig.skip(i as int)[0] == orig[i as int]);
                assert(orig.skip(i as int).remove(0) =~= orig.skip(i + 1));
                assert(msg@ == models[i as int]);
            }
            let mut es = self.handle_message(msg);
            let ghost es_models = evs(es@);
            events.append(&mut es);
            proof {
                lemma_pump_fold_push(m0, models.take(i as int), models[i as int]);
                assert(models.take(i as int).push(models[i as int]) =~= models.take(i + 1));
                assert(evs(events@) =~= evs0 + es_models);
                assert(evs(events@) =~= pump_fold(m0, models.take(i + 1)).1);
            }
            i = i + 1;
        }
        let tick1 = wrap_inc_exec(self.probe_tick);
        self.probe_tick = tick1;
        let probe = tick1 % 10 == 0;
        (events, limit, probe)
    }
}

/// Render the rate-limited timestamp line.
fn diag_ts_exec(k: TsKind, frame_ns: u64, q: Option<u64>) -> (r: Vec<char>)
    ensures
        r@ == spec_diag_ts(k, frame_ns, q),
{
    let mut t = str_chars("spectrum-ts src=");
    let lbl = ts_label(k);
    append_chars(&mut t, &lbl);
    let f1 = str_chars(" frame=");
    append_chars(&mut t, &f1);
    let s1 = secs3(frame_ns);
    append_chars(&mut t, &s1);
    let f2 = str_chars("s query=");
    append_chars(&mut t, &f2);
    match q {
        Some(v) => {
            let s2 = secs3(v);
            append_chars(&mut t, &s2);
        },
        None => {
            let s2 = str_chars("-1.000");
            append_chars(&mut t, &s2);
        },
    }
    let f3 = str_chars("s delta=");
    append_chars(&mut t, &f3);
    match q {
        Some(v) => {
            if v >= frame_ns {
                let s3 = secs3(v - frame_ns);
                append_chars(&mut t, &s3);
            } else {
                t.push('-');
                let s3 = secs3(frame_ns - v);
                append_chars(&mut t, &s3);
            }
        },
        None => {
            let s3 = str_chars("-1.000");
            append_chars(&mut t, &s3);
        },
    }
    let f4 = str_chars("s");
    append_chars(&mut t, &f4);
    proof {
        assert(t@ =~= spec_diag_ts(k, frame_ns, q));
    }
    t
}

} // verus!
