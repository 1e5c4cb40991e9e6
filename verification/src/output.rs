//! Output planning: which sink to build for a requested backend, how to
//! tune it, and how to restore the transport state afterwards.
//!
//! Attaching an output stops the pipeline, swaps the sink element, and then
//! restores whatever play state was held before — never silently leaving the
//! pipeline stopped. For the low-latency server backend the requested buffer
//! duration is snapped to a processing-quantum ladder at a fixed reference
//! rate; the buffer/timing backends take buffer-time and latency-time
//! settings with 100 ms / 10 ms defaults.

use vstd::prelude::*;
use crate::strutil::{
    lower_seq,
    to_lower,
    spec_trim,
    trim_range,
    match_at,
    match_at_exec,
    first_sub,
    find_first_sub,
    str_chars,
};
use crate::tags::append_chars;
use crate::numtext::{spec_dec, u64_to_chars};

verus! {

/// A transport state as the pipeline reports it.
#[derive(Clone, Copy, Debug, PartialEq, Eq, Structural)]
pub enum PlayState {
    VoidPending,
    Null,
    Ready,
    Paused,
    Playing,
}

/// The state to restore after an output swap: playing and paused survive,
/// anything else lands at stopped.
pub open spec fn spec_restore_target(s: PlayState) -> PlayState {
    match s {
        PlayState::Playing => PlayState::Playing,
        PlayState::Paused => PlayState::Paused,
        _ => PlayState::Null,
    }
}

/// The state to restore after an output swap.
pub fn restore_target(s: PlayState) -> (r: PlayState)
    ensures
        r == spec_restore_target(s),
{
    match s {
        PlayState::Playing => PlayState::Playing,
        PlayState::Paused => PlayState::Paused,
        _ => PlayState::Null,
    }
}

/// The tuned sink to build, by backend.
#[derive(Debug)]
pub enum SinkPlan {
    Auto,
    Pipewire { device: Option<Vec<char>>, quantum: i32 },
    Pulse { device: Option<Vec<char>>, buffer_time_us: i64, latency_time_us: i64 },
    Alsa {
        device: Option<Vec<char>>,
        buffer_time_us: i64,
        latency_time_us: i64,
        slave_none: bool,
    },
}

/// The model of a sink plan.
pub enum SinkPlanModel {
    Auto,
    Pipewire { device: Option<Seq<char>>, quantum: i32 },
    Pulse { device: Option<Seq<char>>, buffer_time_us: i64, latency_time_us: i64 },
    Alsa {
        device: Option<Seq<char>>,
        buffer_time_us: i64,
        latency_time_us: i64,
        slave_none: bool,
    },
}

impl View for SinkPlan {
    type V = SinkPlanModel;

    open spec fn view(&self) -> SinkPlanModel {
        match self {
            SinkPlan::Auto => SinkPlanModel::Auto,
            SinkPlan::Pipewire { device, quantum } => SinkPlanModel::Pipewire {
                device: match device {
                    Some(d) => Some(d@),
                    None => None,
                },
                quantum: *quantum,
            },
            SinkPlan::Pulse { device, buffer_time_us, latency_time_us } => SinkPlanModel::Pulse {
                device: match device {
                    Some(d) => Some(d@),
                    None => None,
                },
                buffer_time_us: *buffer_time_us,
                latency_time_us: *latency_time_us,
            },
            SinkPlan::Alsa { device, buffer_time_us, latency_time_us, slave_none } => SinkPlanModel::Alsa {
                device: match device {
                    Some(d) => Some(d@),
                    None => None,
                },
                buffer_time_us: *buffer_time_us,
                latency_time_us: *latency_time_us,
                slave_none: *slave_none,
            },
        }
    }
}

/// The absolute value of an integer.
pub open spec fn iabs(x: int) -> int {
    if x < 0 {
        -x
    } else {
        x
    }
}

/// The processing quantum for a requested buffer duration: the duration
/// (default 100 ms) converted to samples at the 48 kHz reference rate, then
/// snapped to the nearest ladder step — ties keep the earlier candidate —
/// and clamped to [512, 8192].
pub open spec fn spec_quantum(buffer_us: i32) -> i32 {
    let b = if buffer_us > 0 {
        buffer_us as int
    } else {
        100_000
    };
    let base = b * 48_000 / 1_000_000;
    let q0: int = 1024;
    let q1 = if iabs(256 - base) < iabs(q0 - base) {
        256
    } else {
        q0
    };
    let q2 = if iabs(512 - base) < iabs(q1 - base) {
        512
    } else {
        q1
    };
    let q3 = if iabs(1024 - base) < iabs(q2 - base) {
        1024
    } else {
        q2
    };
    let q4 = if iabs(2048 - base) < iabs(q3 - base) {
        2048
    } else {
        q3
    };
    let q5 = if iabs(4096 - base) < iabs(q4 - base) {
        4096
    } else {
        q4
    };
    let q6 = if iabs(8192 - base) < iabs(q5 - base) {
        8192
    } else {
        q5
    };
    if q6 < 512 {
        512
    } else if q6 > 8192 {
        8192
    } else {
        q6 as i32
    }
}

/// The absolute difference of two 64-bit values.
fn diff_abs(a: i64, b: i64) -> (r: i64)
    requires
        -10_000_000_000 <= a <= 10_000_000_000,
        -10_000_000_000 <= b <= 10_000_000_000,
    ensures
        r == iabs(a - b),
{
    if a >= b {
        a - b
    } else {
        b - a
    }
}

/// Snap a requested buffer duration to the quantum ladder.
pub fn quantum_for_buffer(buffer_us: i32) -> (r: i32)
    ensures
        r == spec_quantum(buffer_us),
{
    let b: i64 = if buffer_us > 0 {
        buffer_us as i64
    } else {
        100_000
    };
    let base: i64 = b * 48_000 / 1_000_000;
    let mut q: i64 = 1024;
    if diff_abs(256, base) < diff_abs(q, base) {
        q = 256;
    }
    if diff_abs(512, base) < diff_abs(q, base) {
        q = 512;
    }
    if diff_abs(1024, base) < diff_abs(q, base) {
        q = 1024;
    }
    if diff_abs(2048, base) < diff_abs(q, base) {
        q = 2048;
    }
    if diff_abs(4096, base) < diff_abs(q, base) {
        q = 4096;
    }
    if diff_abs(8192, base) < diff_abs(q, base) {
        q = 8192;
    }
    if q < 512 {
        512
    } else if q > 8192 {
        8192
    } else {
        q as i32
    }
}

/// The model of an optional device name.
pub open spec fn opt_dev(o: Option<Vec<char>>) -> Option<Seq<char>> {
    match o {
        Some(v) => Some(v@),
        None => None,
    }
}

/// The trimmed device selection: an absent or whitespace-only device means
/// the default output.
pub open spec fn spec_device_norm(device: Option<Seq<char>>) -> Option<Seq<char>> {
    match device {
        Some(x) => if spec_trim(x).len() > 0 {
            Some(spec_trim(x))
        } else {
            None
        },
        None => None,
    }
}

/// The plan for a requested backend: `auto` (or nothing) builds the
/// automatic sink; names containing `pipewire`, `pulse` or `alsa` build the
/// matching tuned sink; anything else is an unsupported driver, reported
/// with the request's own text.
pub open spec fn spec_plan(
    driver: Seq<char>,
    device: Option<Seq<char>>,
    buffer_us: i32,
    latency_us: i32,
    exclusive: bool,
) -> Result<SinkPlanModel, Seq<char>> {
    let d = lower_seq(spec_trim(driver));
    let dev = spec_device_norm(device);
    if d.len() == 0 || match_at(d, "auto"@, 0) {
        Ok(SinkPlanModel::Auto)
    } else if first_sub(d, "pipewire"@) < d.len() {
        Ok(SinkPlanModel::Pipewire { device: dev, quantum: spec_quantum(buffer_us) })
    } else if first_sub(d, "pulse"@) < d.len() {
        Ok(
            SinkPlanModel::Pulse {
                device: dev,
                buffer_time_us: if buffer_us > 0 {
                    buffer_us as i64
                } else {
                    100_000
                },
                latency_time_us: if latency_us > 0 {
                    latency_us as i64
                } else {
                    10_000
                },
            },
        )
    } else if first_sub(d, "alsa"@) < d.len() {
        Ok(
            SinkPlanModel::Alsa {
                device: dev,
                buffer_time_us: if buffer_us > 0 {
                    buffer_us as i64
                } else {
                    100_000
                },
                latency_time_us: if latency_us > 0 {
                    latency_us as i64
                } else {
                    10_000
                },
                slave_none: exclusive,
            },
        )
    } else {
        Err(Seq::<char>::empty() + "unsupported driver: "@ + driver)
    }
}

/// Plan the sink for a requested backend and tuning.
pub fn plan_output(
    driver: &Vec<char>,
    device: &Option<Vec<char>>,
    buffer_us: i32,
    latency_us: i32,
    exclusive: bool,
) -> (r: Result<SinkPlan, Vec<char>>)
    ensures
        match (r, spec_plan(driver@, opt_dev(*device), buffer_us, latency_us, exclusive)) {
            (Ok(p), Ok(q)) => p@ == q,
            (Err(t), Err(u)) => t@ == u,
            _ => false,
        },
{
    let trimmed = trim_range(driver, 0, driver.len());
    proof {
        assert(driver@.subrange(0, driver@.len() as int) =~= driver@);
    }
    let d = to_lower(&trimmed);
    let dev: Option<Vec<char>> = match device {
        Some(x) => {
            let t = trim_range(x, 0, x.len());
            proof {
                assert(x@.subrange(0, x@.len() as int) =~= x@);
            }
            if t.len() > 0 {
                Some(t)
            } else {
                None
            }
        },
        None => None,
    };
    let auto_pat = str_chars("auto");
    let pw_pat = str_chars("pipewire");
    let pa_pat = str_chars("pulse");
    let alsa_pat = str_chars("alsa");
    proof {
        reveal_strlit("auto");
        reveal_strlit("pipewire");
        reveal_strlit("pulse");
        reveal_strlit("alsa");
    }
    if d.len() == 0 || match_at_exec(&d, &auto_pat, 0) {
        Ok(SinkPlan::Auto)
    } else if find_first_sub(&d, &pw_pat) < d.len() {
        Ok(SinkPlan::Pipewire { device: dev, quantum: quantum_for_buffer(buffer_us) })
    } else if find_first_sub(&d, &pa_pat) < d.len() {
        Ok(
            SinkPlan::Pulse {
                device: dev,
                buffer_time_us: if buffer_us > 0 {
                    buffer_us as i64
                } else {
                    100_000
                },
                latency_time_us: if latency_us > 0 {
                    latency_us as i64
                } else {
                    10_000
                },
            },
        )
    } else if find_first_sub(&d, &alsa_pat) < d.len() {
        Ok(
            SinkPlan::Alsa {
                device: dev,
                buffer_time_us: if buffer_us > 0 {
                    buffer_us as i64
                } else {
                    100_000
                },
                latency_time_us: if latency_us > 0 {
                    latency_us as i64
                } else {
                    10_000
                },
                slave_none: exclusive,
            },
        )
    } else {
        let mut t = str_chars("unsupported driver: ");
        append_chars(&mut t, driver);
        proof {
            assert(t@ =~= Seq::<char>::empty() + "unsupported driver: "@ + driver@);
        }
        Err(t)
    }
}

/// The status code when a planned sink cannot be constructed, and the error
/// text recorded and emitted for it.
pub open spec fn spec_sink_fail(p: SinkPlanModel) -> (i32, Seq<char>) {
    match p {
        SinkPlanModel::Pipewire { .. } => (-11i32, "pipewiresink unavailable"@),
        SinkPlanModel::Pulse { .. } => (-12i32, "pulsesink unavailable"@),
        SinkPlanModel::Alsa { .. } => (-13i32, "alsasink unavailable"@),
        SinkPlanModel::Auto => (-15i32, "failed to create audio sink"@),
    }
}

/// The status code and error text when the planned sink cannot be built.
pub fn sink_fail(p: &SinkPlan) -> (r: (i32, Vec<char>))
    ensures
        r.0 == spec_sink_fail(p@).0,
        r.1@ == spec_sink_fail(p@).1,
{
    match p {
        SinkPlan::Pipewire { .. } => (-11, str_chars("pipewiresink unavailable")),
        SinkPlan::Pulse { .. } => (-12, str_chars("pulsesink unavailable")),
        SinkPlan::Alsa { .. } => (-13, str_chars("alsasink unavailable")),
        SinkPlan::Auto => (-15, str_chars("failed to create audio sink")),
    }
}

/// The status code for an unsupported driver request.
pub const UNSUPPORTED_DRIVER_CODE: i32 = -14;

/// The informational line emitted after configuring the low-latency-server
/// sink.
pub open spec fn spec_pw_configured_text(device: Option<Seq<char>>, quantum: i32) -> Seq<char> {
    Seq::<char>::empty() + "pipewire-sink configured target="@ + (match device {
        Some(d) => d,
        None => "default"@,
    }) + " autoconnect=true latency="@ + spec_dec(quantum as int)
}

/// Build the informational line for a configured low-latency-server sink.
pub fn pw_configured_text(device: &Option<Vec<char>>, quantum: i32) -> (r: Vec<char>)
    requires
        quantum > 0,
    ensures
        r@ == spec_pw_configured_text(opt_dev(*device), quantum),
{
    let mut t = str_chars("pipewire-sink configured target=");
    match device {
        Some(d) => {
            append_chars(&mut t, d);
        },
        None => {
            let def = str_chars("default");
            append_chars(&mut t, &def);
        },
    }
    let mid = str_chars(" autoconnect=true latency=");
    append_chars(&mut t, &mid);
    let digits = u64_to_chars(quantum as u64);
    append_chars(&mut t, &digits);
    proof {
        assert(t@ =~= spec_pw_configured_text(opt_dev(*device), quantum));
    }
    t
}

/// The informational line emitted after an output swap.
pub open spec fn spec_output_switched_text(driver: Seq<char>, device: Option<Seq<char>>) -> Seq<
    char,
> {
    Seq::<char>::empty() + "output-switched driver="@ + driver + " device="@ + (match device {
        Some(d) => d,
        None => "default"@,
    })
}

/// Build the informational line for a completed output swap.
pub fn output_switched_text(driver: &Vec<char>, device: &Option<Vec<char>>) -> (r: Vec<char>)
    ensures
        r@ == spec_output_switched_text(driver@, opt_dev(*device)),
{
    let mut t = str_chars("output-switched driver=");
    append_chars(&mut t, driver);
    let mid = str_chars(" device=");
    append_chars(&mut t, &mid);
    match device {
        Some(d) => {
            append_chars(&mut t, d);
        },
        None => {
            let def = str_chars("default");
            append_chars(&mut t, &def);
        },
    }
    proof {
        assert(t@ =~= spec_output_switched_text(driver@, opt_dev(*device)));
    }
    t
}

} // verus!
