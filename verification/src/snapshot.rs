//! Latency probing and the runtime snapshot report.
//!
//! The latency probe prefers the pipeline's computed upper bound when it is
//! below a five-second sanity ceiling, then the lower bound, then the active
//! output element's configured timing — and reports zero when nothing is
//! usable, never an error. The snapshot merges the audio-server clock
//! settings, the negotiated and hardware output formats, and the best-known
//! source format into one JSON report.

use vstd::prelude::*;
use crate::strutil::{
    upper_seq,
    to_upper,
    first_sub,
    find_first_sub,
    first_sat,
    lemma_first_sat_at,
    spec_is_space,
    is_space,
    split_sub,
    split_on,
    subvec,
    str_chars,
};
use crate::numtext::{spec_dec, u64_to_chars, spec_parse_i32, parse_i32_range};
use crate::tags::{append_chars, TagState, TagModel, spec_depth_from_format, depth_from_format};
use crate::devices::{line_value, line_value_exec};
use crate::json::{json_escaped, json_escape};
use crate::pwclient::{SettingsReading, SettingsModel};

verus! {

/// The five-second ceiling above which a reported latency bound is not
/// believed, in nanoseconds.
pub const LATENCY_CEILING_NS: u64 = 5_000_000_000;

/// Where a probed latency figure came from.
#[derive(Clone, Copy, Debug, PartialEq, Eq, Structural)]
pub enum LatencySource {
    QueryMax,
    QueryMin,
    SinkLatencyTime,
    SinkBufferTime,
    NoSource,
}

/// The label of a latency source, as the probe report prints it.
pub open spec fn spec_latency_label(s: LatencySource) -> Seq<char> {
    match s {
        LatencySource::QueryMax => "gst-query-max"@,
        LatencySource::QueryMin => "gst-query-min"@,
        LatencySource::SinkLatencyTime => "sink-latency-time"@,
        LatencySource::SinkBufferTime => "sink-buffer-time"@,
        LatencySource::NoSource => "none"@,
    }
}

/// The label of a latency source.
pub fn latency_label(s: LatencySource) -> (r: Vec<char>)
    ensures
        r@ == spec_latency_label(s),
{
    match s {
        LatencySource::QueryMax => str_chars("gst-query-max"),
        LatencySource::QueryMin => str_chars("gst-query-min"),
        LatencySource::SinkLatencyTime => str_chars("sink-latency-time"),
        LatencySource::SinkBufferTime => str_chars("sink-buffer-time"),
        LatencySource::NoSource => str_chars("none"),
    }
}

/// A sink timing property in microseconds, as nanoseconds, saturated at a
/// million seconds.
pub open spec fn us_to_ns_sat(v: i64) -> u64 {
    if v > 1_000_000_000_000 {
        1_000_000_000_000_000
    } else {
        (v * 1000) as u64
    }
}

/// The probed latency in nanoseconds and its source: the query's upper
/// bound when positive and below the ceiling, else its lower bound under
/// the same test, else the sink's latency-time, else its buffer-time, else
/// zero.
pub open spec fn spec_probe_latency(
    query: Option<(u64, u64)>,
    latency_time_us: Option<i64>,
    buffer_time_us: Option<i64>,
) -> (u64, LatencySource) {
    let fallback = match latency_time_us {
        Some(v) => if v > 0 {
            (us_to_ns_sat(v), LatencySource::SinkLatencyTime)
        } else {
            spec_probe_buffer(buffer_time_us)
        },
        None => spec_probe_buffer(buffer_time_us),
    };
    match query {
        Some(q) => if 0 < q.1 < LATENCY_CEILING_NS {
            (q.1, LatencySource::QueryMax)
        } else if 0 < q.0 < LATENCY_CEILING_NS {
            (q.0, LatencySource::QueryMin)
        } else {
            fallback
        },
        None => fallback,
    }
}

/// The buffer-time fallback of the latency probe.
pub open spec fn spec_probe_buffer(buffer_time_us: Option<i64>) -> (u64, LatencySource) {
    match buffer_time_us {
        Some(v) => if v > 0 {
            (us_to_ns_sat(v), LatencySource::SinkBufferTime)
        } else {
            (0, LatencySource::NoSource)
        },
        None => (0, LatencySource::NoSource),
    }
}

/// Probe the playout latency from the query result (min and max bounds in
/// nanoseconds) and the active sink's timing properties (microseconds).
pub fn probe_latency(
    query: Option<(u64, u64)>,
    latency_time_us: Option<i64>,
    buffer_time_us: Option<i64>,
) -> (r: (u64, LatencySource))
    ensures
        r == spec_probe_latency(query, latency_time_us, buffer_time_us),
{
    match query {
        Some(q) => {
            if 0 < q.1 && q.1 < LATENCY_CEILING_NS {
                return (q.1, LatencySource::QueryMax);
            }
            if 0 < q.0 && q.0 < LATENCY_CEILING_NS {
                return (q.0, LatencySource::QueryMin);
            }
        },
        None => {},
    }
    match latency_time_us {
        Some(v) => {
            if v > 0 {
                let ns: u64 = if v > 1_000_000_000_000 {
                    1_000_000_000_000_000
                } else {
                    (v as u64) * 1000
                };
                return (ns, LatencySource::SinkLatencyTime);
            }
        },
        None => {},
    }
    match buffer_time_us {
        Some(v) => {
            if v > 0 {
                let ns: u64 = if v > 1_000_000_000_000 {
                    1_000_000_000_000_000
                } else {
                    (v as u64) * 1000
                };
                return (ns, LatencySource::SinkBufferTime);
            }
        },
        None => {},
    }
    (0, LatencySource::NoSource)
}

/// A digit run with its trailing zeros removed.
pub open spec fn trim_zeros(s: Seq<char>) -> Seq<char>
    decreases s.len(),
{
    if s.len() > 0 && s.last() == '0' {
        trim_zeros(s.drop_last())
    } else {
        s
    }
}

/// Drop the trailing zeros of a digit run.
fn trim_zeros_exec(v: Vec<char>) -> (r: Vec<char>)
    ensures
        r@ == trim_zeros(v@),
{
    let mut r = v;
    loop
        invariant
            trim_zeros(r@) == trim_zeros(v@),
        decreases r@.len(),
    {
        let n = r.len();
        if n > 0 && r[n - 1] == '0' {
            r.pop();
        } else {
            return r;
        }
    }
}

/// Nanoseconds as decimal seconds: the whole seconds, then the fractional
/// digits with trailing zeros removed; whole values print with no point.
pub open spec fn spec_secs_str(ns: u64) -> Seq<char> {
    let whole = ns as int / 1_000_000_000;
    let frac = ns as int % 1_000_000_000;
    if frac == 0 {
        spec_dec(whole)
    } else {
        spec_dec(whole) + seq!['.'] + trim_zeros(spec_dec(1_000_000_000 + frac).drop_first())
    }
}

/// Render nanoseconds as decimal seconds.
pub fn secs_str(ns: u64) -> (r: Vec<char>)
    ensures
        r@ == spec_secs_str(ns),
{
    let whole: u64 = ns / 1_000_000_000;
    let frac: u64 = ns % 1_000_000_000;
    let mut r = u64_to_chars(whole);
    if frac == 0 {
        return r;
    }
    r.push('.');
    let padded = u64_to_chars(1_000_000_000 + frac);
    let digits = subvec(&padded, 1, padded.len());
    proof {
        crate::numtext::lemma_spec_dec_min_len(1_000_000_000 + frac as int);
        assert(digits@ =~= spec_dec(1_000_000_000 + frac as int).drop_first());
    }
    let trimmed = trim_zeros_exec(digits);
    append_chars(&mut r, &trimmed);
    proof {
        assert(r@ =~= spec_secs_str(ns));
    }
    r
}

/// Micro-milliseconds as decimal milliseconds: the whole milliseconds, then
/// the fractional digits with trailing zeros removed.
pub open spec fn spec_ms_str(m: i64) -> Seq<char>
    recommends
        m >= 0,
{
    let whole = m as int / 1_000_000;
    let frac = m as int % 1_000_000;
    if frac == 0 {
        spec_dec(whole)
    } else {
        spec_dec(whole) + seq!['.'] + trim_zeros(spec_dec(1_000_000 + frac).drop_first())
    }
}

/// Render non-negative micro-milliseconds as decimal milliseconds.
pub fn ms_str(m: i64) -> (r: Vec<char>)
    requires
        m >= 0,
    ensures
        r@ == spec_ms_str(m),
{
    let whole: u64 = (m as u64) / 1_000_000;
    let frac: u64 = (m as u64) % 1_000_000;
    let mut r = u64_to_chars(whole);
    if frac == 0 {
        return r;
    }
    r.push('.');
    let padded = u64_to_chars(1_000_000 + frac);
    let digits = subvec(&padded, 1, padded.len());
    proof {
        crate::numtext::lemma_spec_dec_min_len(1_000_000 + frac as int);
        assert(digits@ =~= spec_dec(1_000_000 + frac as int).drop_first());
    }
    let trimmed = trim_zeros_exec(digits);
    append_chars(&mut r, &trimmed);
    proof {
        assert(r@ =~= spec_ms_str(m));
    }
    r
}

/// The probe report: the latency in seconds and the source label.
pub open spec fn spec_probe_json(ns: u64, src: LatencySource) -> Seq<char> {
    Seq::<char>::empty() + "{\"latency_s\":"@ + spec_secs_str(ns) + ",\"source\":\""@
        + spec_latency_label(src) + "\"}"@
}

/// Render the probe report.
pub fn probe_json(ns: u64, src: LatencySource) -> (r: Vec<char>)
    ensures
        r@ == spec_probe_json(ns, src),
{
    let mut t = str_chars("{\"latency_s\":");
    let secs = secs_str(ns);
    append_chars(&mut t, &secs);
    let mid = str_chars(",\"source\":\"");
    append_chars(&mut t, &mid);
    let lbl = latency_label(src);
    append_chars(&mut t, &lbl);
    let tail = str_chars("\"}");
    append_chars(&mut t, &tail);
    proof {
        assert(t@ =~= spec_probe_json(ns, src));
    }
    t
}

/// How one line of a hardware-parameters file updates the (rate, depth)
/// pair: `format:` lines name the sample layout, `rate:` lines start with
/// the numeric rate; later lines win.
pub open spec fn hw_line_step(
    st: (Option<i32>, Option<i32>),
    l: Seq<char>,
) -> (Option<i32>, Option<i32>) {
    match line_value(l, "format:"@) {
        Some(v) => match spec_depth_from_format(v) {
            Some(d) => (st.0, Some(d)),
            None => st,
        },
        None => match line_value(l, "rate:"@) {
            Some(v) => {
                let tok = v.take(first_sat(v, |c: char| spec_is_space(c)));
                match spec_parse_i32(tok) {
                    Some(x) => if x > 0 {
                        (Some(x), st.1)
                    } else {
                        st
                    },
                    None => st,
                }
            },
            None => st,
        },
    }
}

/// The (rate, depth) pair after the file's lines.
pub open spec fn hw_lines_fold(lines: Seq<Seq<char>>) -> (Option<i32>, Option<i32>)
    decreases lines.len(),
{
    if lines.len() == 0 {
        (None, None)
    } else {
        hw_line_step(hw_lines_fold(lines.drop_last()), lines.last())
    }
}

/// The sample rate and bit depth a hardware-parameters file reports.
pub open spec fn spec_hw_params(text: Seq<char>) -> (Option<i32>, Option<i32>) {
    hw_lines_fold(split_sub(text, seq!['\n']))
}

/// Parse a hardware-parameters file into its sample rate and bit depth.
pub fn parse_hw_params(text: &Vec<char>) -> (r: (Option<i32>, Option<i32>))
    ensures
        r == spec_hw_params(text@),
{
    let mut nl: Vec<char> = Vec::new();
    nl.push('\n');
    proof {
        assert(nl@ =~= seq!['\n']);
    }
    let lines = split_on(text, &nl);
    let ghost lms = lines@.map_values(|p: Vec<char>| p@);
    let mut rate: Option<i32> = None;
    let mut depth: Option<i32> = None;
    let mut i: usize = 0;
    proof {
        assert(lms.take(0) =~= Seq::<Seq<char>>::empty());
    }
    while i < lines.len()
        invariant
            0 <= i <= lines@.len(),
            lms == lines@.map_values(|p: Vec<char>| p@),
            (rate, depth) == hw_lines_fold(lms.take(i as int)),
        decreases lines@.len() - i,
    {
        proof {
            assert(lms.take(i + 1).drop_last() =~= lms.take(i as int));
            assert(lms.take(i + 1).last() == lms[i as int]);
        }
        let fmt_pat = str_chars("format:");
        let rate_pat = str_chars("rate:");
        match line_value_exec(&lines[i], &fmt_pat) {
            Some(v) => {
                match depth_from_format(&v) {
                    Some(d) => {
                        depth = Some(d);
                    },
                    None => {},
                }
            },
            None => {
                match line_value_exec(&lines[i], &rate_pat) {
                    Some(v) => {
                        let mut e: usize = 0;
                        while e < v.len() && !is_space(v[e])
                            invariant
                                0 <= e <= v@.len(),
                                forall|k: int| 0 <= k < e ==> !spec_is_space(#[trigger] v@[k]),
                            decreases v@.len() - e,
                        {
                            e = e + 1;
                        }
                        proof {
                            lemma_first_sat_at(v@, |c: char| spec_is_space(c), e as int);
                            assert(v@.subrange(0, e as int) =~= v@.take(e as int));
                        }
                        match parse_i32_range(&v, 0, e) {
                            Some(x) => {
                                if x > 0 {
                                    rate = Some(x);
                                }
                            },
                            None => {},
                        }
                    },
                    None => {},
                }
            },
        }
        i = i + 1;
    }
    proof {
        assert(lms.take(lines@.len() as int) =~= lms);
    }
    (rate, depth)
}

/// Whether a stream status file reports a running stream.
pub fn status_running(text: &Vec<char>) -> (r: bool)
    ensures
        r == (first_sub(upper_seq(text@), "RUNNING"@) < text@.len()),
{
    let up = to_upper(text);
    let pat = str_chars("RUNNING");
    proof {
        reveal_strlit("RUNNING");
    }
    find_first_sub(&up, &pat) < up.len()
}

/// The negotiated output format out of the active sink's capabilities: the
/// rate when positive, and the depth the format name carries.
pub fn output_format(rate: Option<i32>, format: Option<Vec<char>>) -> (r: (Option<i32>, Option<
    i32,
>))
    ensures
        r.0 == (match rate {
            Some(x) => if x > 0 {
                Some(x)
            } else {
                None::<i32>
            },
            None => None::<i32>,
        }),
        r.1 == (match format {
            Some(f) => spec_depth_from_format(f@),
            None => None::<i32>,
        }),
{
    let r0 = match rate {
        Some(x) => {
            if x > 0 {
                Some(x)
            } else {
                None
            }
        },
        None => None,
    };
    let r1 = match format {
        Some(f) => depth_from_format(&f),
        None => None,
    };
    (r0, r1)
}

/// The snapshot's latency in micro-milliseconds: the directly queried
/// stream latency, or the server's quantum over its rate when both are
/// known, or nothing.
pub open spec fn spec_snapshot_latency(direct: Option<i64>, quantum: i32, rate: i32) -> Option<
    i64,
> {
    match direct {
        Some(v) => Some(v),
        None => if quantum > 0 && rate > 0 {
            Some((quantum as int * 1_000_000_000 / rate as int) as i64)
        } else {
            None
        },
    }
}

/// Derive the snapshot's latency figure.
pub fn snapshot_latency(direct: Option<i64>, quantum: i32, rate: i32) -> (r: Option<i64>)
    ensures
        r == spec_snapshot_latency(direct, quantum, rate),
{
    match direct {
        Some(v) => Some(v),
        None => {
            if quantum > 0 && rate > 0 {
                Some((quantum as i64) * 1_000_000_000 / (rate as i64))
            } else {
                None
            }
        },
    }
}

/// A non-negative value for the report: negatives print as zero.
pub open spec fn at_least_zero(v: i32) -> int {
    if v > 0 {
        v as int
    } else {
        0
    }
}

/// The first positive value of the precedence chain, or zero.
pub open spec fn pick_format(primary: i32, latched: i32, negotiated: Option<i32>) -> int {
    if primary > 0 {
        primary as int
    } else if latched > 0 {
        latched as int
    } else {
        match negotiated {
            Some(x) => if x > 0 {
                x as int
            } else {
                0
            },
            None => 0,
        }
    }
}

/// An optional format figure for the report, zero when unknown.
pub open spec fn opt_format(v: Option<i32>) -> int {
    match v {
        Some(x) => if x > 0 {
            x as int
        } else {
            0
        },
        None => 0,
    }
}

/// The runtime snapshot report: the audio-server clock settings, the
/// negotiated and hardware output formats, and the best-known source format
/// with tag-derived values first, then latched ones, then negotiated ones.
pub open spec fn spec_snapshot_json(
    settings: SettingsModel,
    latency_micro_ms: Option<i64>,
    session_rate: Option<i32>,
    session_depth: Option<i32>,
    hw_rate: Option<i32>,
    hw_depth: Option<i32>,
    tags: TagModel,
    source_rate: i32,
    source_depth: i32,
) -> Seq<char> {
    Seq::<char>::empty() + "{\"pipewire-class\":{\"force_rate\":"@ + spec_dec(
        at_least_zero(settings.force_rate),
    ) + ",\"quantum\":"@ + spec_dec(at_least_zero(settings.quantum)) + ",\"rate\":"@ + spec_dec(
        at_least_zero(settings.rate),
    ) + ",\"latency_ms\":"@ + (match latency_micro_ms {
        Some(m) => if m >= 0 {
            spec_ms_str(m)
        } else {
            "-1"@
        },
        None => "-1"@,
    }) + ",\"allowed_rates_raw\":\""@ + json_escaped(settings.allowed_raw)
        + "\"},\"output\":{\"session_rate\":"@ + spec_dec(opt_format(session_rate))
        + ",\"session_depth\":"@ + spec_dec(opt_format(session_depth)) + ",\"hardware_rate\":"@
        + spec_dec(opt_format(hw_rate)) + ",\"hardware_depth\":"@ + spec_dec(opt_format(hw_depth))
        + "},\"source\":{\"codec\":\""@ + json_escaped(tags.codec) + "\",\"bitrate\":"@ + spec_dec(
        at_least_zero(tags.bitrate),
    ) + ",\"rate\":"@ + spec_dec(pick_format(source_rate, tags.rate, session_rate))
        + ",\"depth\":"@ + spec_dec(pick_format(source_depth, tags.depth, session_depth)) + "}}"@
}

/// Render the runtime snapshot report.
pub fn build_snapshot_json(
    settings: &SettingsReading,
    latency_micro_ms: Option<i64>,
    session_rate: Option<i32>,
    session_depth: Option<i32>,
    hw_rate: Option<i32>,
    hw_depth: Option<i32>,
    tags: &TagState,
    source_rate: i32,
    source_depth: i32,
) -> (r: Vec<char>)
    ensures
        r@ == spec_snapshot_json(
            settings@,
            latency_micro_ms,
            session_rate,
            session_depth,
            hw_rate,
            hw_depth,
            tags@,
            source_rate,
            source_depth,
        ),
{
    let mut t = str_chars("{\"pipewire-class\":{\"force_rate\":");
    let d1 = dec_at_least_zero(settings.force_rate);
    append_chars(&mut t, &d1);
    let p1 = str_chars(",\"quantum\":");
    append_chars(&mut t, &p1);
    let d2 = dec_at_least_zero(settings.quantum);
    append_chars(&mut t, &d2);
    let p2 = str_chars(",\"rate\":");
    append_chars(&mut t, &p2);
    let d3 = dec_at_least_zero(settings.rate);
    append_chars(&mut t, &d3);
    let p3 = str_chars(",\"latency_ms\":");
    append_chars(&mut t, &p3);
    match latency_micro_ms {
        Some(m) => {
            if m >= 0 {
                let s = ms_str(m);
                append_chars(&mut t, &s);
            } else {
                let s = str_chars("-1");
                append_chars(&mut t, &s);
            }
        },
        None => {
            let s = str_chars("-1");
            append_chars(&mut t, &s);
        },
    }
    let p4 = str_chars(",\"allowed_rates_raw\":\"");
    append_chars(&mut t, &p4);
    let e1 = json_escape(&settings.allowed_raw);
    append_chars(&mut t, &e1);
    let p5 = str_chars("\"},\"output\":{\"session_rate\":");
    append_chars(&mut t, &p5);
    let d4 = dec_opt_format(session_rate);
    append_chars(&mut t, &d4);
    let p6 = str_chars(",\"session_depth\":");
    append_chars(&mut t, &p6);
    let d5 = dec_opt_format(session_depth);
    append_chars(&mut t, &d5);
    let p7 = str_chars(",\"hardware_rate\":");
    append_chars(&mut t, &p7);
    let d6 = dec_opt_format(hw_rate);
    append_chars(&mut t, &d6);
    let p8 = str_chars(",\"hardware_depth\":");
    append_chars(&mut t, &p8);
    let d7 = dec_opt_format(hw_depth);
    append_chars(&mut t, &d7);
    let p9 = str_chars("},\"source\":{\"codec\":\"");
    append_chars(&mut t, &p9);
    let e2 = json_escape(&tags.codec);
    append_chars(&mut t, &e2);
    let p10 = str_chars("\",\"bitrate\":");
    append_chars(&mut t, &p10);
    let d8 = dec_at_least_zero(tags.bitrate);
    append_chars(&mut t, &d8);
    let p11 = str_chars(",\"rate\":");
    append_chars(&mut t, &p11);
    let d9 = dec_pick(source_rate, tags.rate, session_rate);
    append_chars(&mut t, &d9);
    let p12 = str_chars(",\"depth\":");
    append_chars(&mut t, &p12);
    let d10 = dec_pick(source_depth, tags.depth, session_depth);
    append_chars(&mut t, &d10);
    let p13 = str_chars("}}");
    append_chars(&mut t, &p13);
    proof {
        assert(t@ =~= spec_snapshot_json(
            settings@,
            latency_micro_ms,
            session_rate,
            session_depth,
            hw_rate,
            hw_depth,
            tags@,
            source_rate,
            source_depth,
        ));
    }
    t
}

/// The decimal of a value clamped at zero.
fn dec_at_least_zero(v: i32) -> (r: Vec<char>)
    ensures
        r@ == spec_dec(at_least_zero(v)),
{
    if v > 0 {
        u64_to_chars(v as u64)
    } else {
        u64_to_chars(0)
    }
}

/// The decimal of an optional format figure.
fn dec_opt_format(v: Option<i32>) -> (r: Vec<char>)
    ensures
        r@ == spec_dec(opt_format(v)),
{
    match v {
        Some(x) => {
            if x > 0 {
                u64_to_chars(x as u64)
            } else {
                u64_to_chars(0)
            }
        },
        None => u64_to_chars(0),
    }
}

/// The decimal of the format precedence chain.
fn dec_pick(primary: i32, latched: i32, negotiated: Option<i32>) -> (r: Vec<char>)
    ensures
        r@ == spec_dec(pick_format(primary, latched, negotiated)),
{
    if primary > 0 {
        u64_to_chars(primary as u64)
    } else if latched > 0 {
        u64_to_chars(latched as u64)
    } else {
        match negotiated {
            Some(x) => {
                if x > 0 {
                    u64_to_chars(x as u64)
                } else {
                    u64_to_chars(0)
                }
            },
            None => u64_to_chars(0),
        }
    }
}

} // verus!
