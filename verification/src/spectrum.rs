//! Spectral-analysis message parsing: locating the magnitude block in the
//! structure text, reading its numeric tokens, and resolving the frame
//! timestamp.
//!
//! The timestamp resolution order — structure-carried time fields first,
//! then the message envelope, then the pull-time position query, then the
//! previous frame — exists because pull-based position queries can disagree
//! with the pipeline's clock by tens of milliseconds, which is visible as
//! jitter downstream.

use vstd::prelude::*;
use crate::strutil::{
    first_sub,
    lower_seq,
    to_lower,
    str_chars,
    find_first_sub,
    find_char,
    subvec,
    lemma_first_sub_bounds,
};
use crate::numtext::{
    spec_is_digit,
    first_idx,
    lemma_first_idx_at,
    spec_mag_milli,
    parse_mag_milli,
    spec_dec,
    u64_to_chars,
    MAG_MILLI_CAP,
};

verus! {

/// Whether `c` can be part of a numeric token.
pub open spec fn spec_is_numchar(c: char) -> bool {
    spec_is_digit(c) || c == '-' || c == '+' || c == '.' || c == 'e' || c == 'E'
}

/// Whether `c` can be part of a numeric token.
pub fn is_numchar(c: char) -> (r: bool)
    ensures
        r == spec_is_numchar(c),
{
    ('0' <= c && c <= '9') || c == '-' || c == '+' || c == '.' || c == 'e' || c == 'E'
}

/// The magnitude a numeric token contributes: its milli-unit value when it
/// is a well-formed decimal — plain or in exponent notation — within
/// `MAG_MILLI_CAP`, else nothing.
pub open spec fn accepted_mag(t: Seq<char>) -> Option<i64> {
    match spec_mag_milli(t) {
        Some(m) => if -MAG_MILLI_CAP <= m <= MAG_MILLI_CAP {
            Some(m as i64)
        } else {
            None
        },
        None => None,
    }
}

/// The accepted magnitudes of `s`, token by token, with `cur` the token
/// under construction.
pub open spec fn mag_vals_acc(s: Seq<char>, cur: Seq<char>) -> Seq<i64>
    decreases s.len(),
{
    if s.len() == 0 {
        match accepted_mag(cur) {
            Some(v) => seq![v],
            None => Seq::empty(),
        }
    } else if spec_is_numchar(s[0]) {
        mag_vals_acc(s.drop_first(), cur.push(s[0]))
    } else {
        (match accepted_mag(cur) {
            Some(v) => seq![v],
            None => Seq::<i64>::empty(),
        }) + mag_vals_acc(s.drop_first(), Seq::empty())
    }
}

/// The accepted magnitudes of the numeric tokens of `s`, in order: the text
/// split at every character that cannot be part of a number, each piece
/// parsed as a decimal, out-of-range and malformed pieces dropped.
pub open spec fn mag_vals(s: Seq<char>) -> Seq<i64> {
    mag_vals_acc(s, Seq::empty())
}

/// Read the accepted magnitudes out of a magnitude block.
pub fn mag_values(block: &Vec<char>) -> (r: Vec<i64>)
    ensures
        r@ == mag_vals(block@),
{
    let n = block.len();
    let mut r: Vec<i64> = Vec::new();
    let mut ts: usize = 0;
    let mut i: usize = 0;
    proof {
        assert(block@.skip(0) =~= block@);
        assert(block@.subrange(0, 0) =~= Seq::<char>::empty());
    }
    while i < n
        invariant
            0 <= ts <= i <= n,
            n == block@.len(),
            mag_vals(block@) == r@ + mag_vals_acc(
                block@.skip(i as int),
                block@.subrange(ts as int, i as int),
            ),
        decreases n - i,
    {
        let c = block[i];
        let ghost cur = block@.subrange(ts as int, i as int);
        let ghost r0 = r@;
        proof {
            assert(block@.skip(i as int)[0] == block@[i as int]);
            assert(block@.skip(i as int).drop_first() =~= block@.skip(i + 1));
        }
        if is_numchar(c) {
            proof {
                assert(cur.push(block@[i as int]) =~= block@.subrange(ts as int, i + 1));
            }
            i = i + 1;
        } else {
            proof {
                assert(mag_vals_acc(block@.skip(i as int), cur) == (match accepted_mag(cur) {
                    Some(v) => seq![v],
                    None => Seq::<i64>::empty(),
                }) + mag_vals_acc(block@.skip(i + 1), Seq::<char>::empty()));
            }
            if ts < i {
                match parse_mag_milli(block, ts, i) {
                    Some(v) => {
                        proof {
                            assert(accepted_mag(cur) == Some(v));
                        }
                        r.push(v);
                        proof {
                            assert(r@ + mag_vals_acc(block@.skip(i + 1), Seq::<char>::empty())
                                =~= r0 + mag_vals_acc(block@.skip(i as int), cur));
                        }
                    },
                    None => {
                        proof {
                            assert(accepted_mag(cur) is None);
                            assert(r@ + mag_vals_acc(block@.skip(i + 1), Seq::<char>::empty())
                                =~= r0 + mag_vals_acc(block@.skip(i as int), cur));
                        }
                    },
                }
            } else {
                proof {
                    assert(cur =~= Seq::<char>::empty());
                    assert(accepted_mag(cur) is None);
                    assert(r@ + mag_vals_acc(block@.skip(i + 1), Seq::<char>::empty()) =~= r0
                        + mag_vals_acc(block@.skip(i as int), cur));
                }
            }
            i = i + 1;
            ts = i;
            proof {
                assert(block@.subrange(ts as int, i as int) =~= Seq::<char>::empty());
            }
        }
    }
    let ghost cur = block@.subrange(ts as int, n as int);
    let ghost r0 = r@;
    proof {
        assert(block@.skip(n as int).len() == 0);
        assert(mag_vals_acc(block@.skip(n as int), cur) == (match accepted_mag(cur) {
            Some(v) => seq![v],
            None => Seq::<i64>::empty(),
        }));
    }
    if ts < n {
        match parse_mag_milli(block, ts, n) {
            Some(v) => {
                proof {
                    assert(accepted_mag(cur) == Some(v));
                }
                r.push(v);
                proof {
                    assert(r@ =~= r0 + mag_vals_acc(block@.skip(n as int), cur));
                }
            },
            None => {
                proof {
                    assert(accepted_mag(cur) is None);
                    assert(r@ =~= r0 + mag_vals_acc(block@.skip(n as int), cur));
                }
            },
        }
    } else {
        proof {
            assert(cur =~= Seq::<char>::empty());
            assert(accepted_mag(cur) is None);
            assert(r@ =~= r0 + mag_vals_acc(block@.skip(n as int), cur));
        }
    }
    proof {
        assert(mag_vals(block@) =~= r@);
    }
    r
}

/// The magnitude block of a structure text: everything after the first
/// case-insensitive `magnitude`, narrowed to the inside of the first brace
/// or angle pair when one closes; nothing when the word is absent.
pub open spec fn spec_mag_block(text: Seq<char>) -> Option<Seq<char>> {
    let lower = lower_seq(text);
    let k = first_sub(lower, "magnitude"@);
    if k == lower.len() {
        None
    } else {
        let rest = text.skip(k);
        let ob = first_idx(rest, '{');
        let oa = first_idx(rest, '<');
        if ob == rest.len() && oa == rest.len() {
            Some(rest)
        } else {
            let op = if ob < rest.len() {
                ob
            } else {
                oa
            };
            let cc = if ob < rest.len() {
                '}'
            } else {
                '>'
            };
            let tail = rest.skip(op + 1);
            let c = first_idx(tail, cc);
            if c == tail.len() {
                Some(rest)
            } else {
                Some(tail.take(c))
            }
        }
    }
}

/// Cut the magnitude block out of a structure text.
pub fn mag_block(text: &Vec<char>) -> (r: Option<Vec<char>>)
    ensures
        match (r, spec_mag_block(text@)) {
            (Some(a), Some(b)) => a@ == b,
            (None, None) => true,
            _ => false,
        },
{
    let lowered = to_lower(text);
    let word = str_chars("magnitude");
    proof {
        reveal_strlit("magnitude");
    }
    let k = find_first_sub(&lowered, &word);
    if k == lowered.len() {
        return None;
    }
    proof {
        lemma_first_sub_bounds(lowered@, word@);
    }
    let rest = subvec(text, k, text.len());
    proof {
        assert(rest@ =~= text@.skip(k as int));
    }
    let ob = match find_char(&rest, '{', 0) {
        Some(i) => {
            proof {
                lemma_first_idx_at(rest@, '{', i as int);
            }
            i
        },
        None => {
            proof {
                lemma_first_idx_at(rest@, '{', rest@.len() as int);
            }
            rest.len()
        },
    };
    let oa = match find_char(&rest, '<', 0) {
        Some(i) => {
            proof {
                lemma_first_idx_at(rest@, '<', i as int);
            }
            i
        },
        None => {
            proof {
                lemma_first_idx_at(rest@, '<', rest@.len() as int);
            }
            rest.len()
        },
    };
    if ob == rest.len() && oa == rest.len() {
        return Some(rest);
    }
    let op = if ob < rest.len() {
        ob
    } else {
        oa
    };
    let cc = if ob < rest.len() {
        '}'
    } else {
        '>'
    };
    let tail = subvec(&rest, op + 1, rest.len());
    proof {
        assert(tail@ =~= rest@.skip(op + 1));
    }
    let c = match find_char(&tail, cc, 0) {
        Some(i) => {
            proof {
                lemma_first_idx_at(tail@, cc, i as int);
            }
            i
        },
        None => {
            proof {
                lemma_first_idx_at(tail@, cc, tail@.len() as int);
            }
            tail.len()
        },
    };
    if c == tail.len() {
        Some(rest)
    } else {
        let out = subvec(&tail, 0, c);
        proof {
            assert(out@ =~= tail@.take(c as int));
        }
        Some(out)
    }
}

/// The time fields a spectral message may carry, each in nanoseconds.
pub struct FrameTimes {
    pub endtime_ns: Option<u64>,
    pub running_ns: Option<u64>,
    pub stream_ns: Option<u64>,
    pub ts_ns: Option<u64>,
}

/// Where a frame timestamp came from.
#[derive(Clone, Copy, Debug, PartialEq, Eq, Structural)]
pub enum TsKind {
    Endtime,
    RunningTime,
    StreamTime,
    Timestamp,
    MsgTs,
    QueryPos,
    Last,
}

/// The first positive structure-carried time, preferred in field order.
pub open spec fn spec_structure_time(t: FrameTimes) -> Option<(u64, TsKind)> {
    if t.endtime_ns matches Some(v) && v > 0 {
        Some((t.endtime_ns->Some_0, TsKind::Endtime))
    } else if t.running_ns matches Some(v) && v > 0 {
        Some((t.running_ns->Some_0, TsKind::RunningTime))
    } else if t.stream_ns matches Some(v) && v > 0 {
        Some((t.stream_ns->Some_0, TsKind::StreamTime))
    } else if t.ts_ns matches Some(v) && v > 0 {
        Some((t.ts_ns->Some_0, TsKind::Timestamp))
    } else {
        None
    }
}

/// The resolved frame timestamp and its source: structure-carried time,
/// else the message envelope's, else the queried position, else the
/// previous frame's.
pub open spec fn spec_resolve_time(
    t: FrameTimes,
    msg_ns: Option<u64>,
    query_ns: Option<u64>,
    prev_ns: u64,
) -> (u64, TsKind) {
    match spec_structure_time(t) {
        Some(p) => p,
        None => match msg_ns {
            Some(v) => (v, TsKind::MsgTs),
            None => match query_ns {
                Some(v) => (v, TsKind::QueryPos),
                None => (prev_ns, TsKind::Last),
            },
        },
    }
}

/// Resolve the timestamp of an accepted frame.
pub fn resolve_time(t: &FrameTimes, msg_ns: Option<u64>, query_ns: Option<u64>, prev_ns: u64) -> (r:
    (u64, TsKind))
    ensures
        r == spec_resolve_time(*t, msg_ns, query_ns, prev_ns),
{
    match t.endtime_ns {
        Some(v) if v > 0 => {
            return (v, TsKind::Endtime);
        },
        _ => {},
    }
    match t.running_ns {
        Some(v) if v > 0 => {
            return (v, TsKind::RunningTime);
        },
        _ => {},
    }
    match t.stream_ns {
        Some(v) if v > 0 => {
            return (v, TsKind::StreamTime);
        },
        _ => {},
    }
    match t.ts_ns {
        Some(v) if v > 0 => {
            return (v, TsKind::Timestamp);
        },
        _ => {},
    }
    match msg_ns {
        Some(v) => (v, TsKind::MsgTs),
        None => match query_ns {
            Some(v) => (v, TsKind::QueryPos),
            None => (prev_ns, TsKind::Last),
        },
    }
}

/// The label of a timestamp source, as the diagnostics event prints it.
pub open spec fn spec_ts_label(k: TsKind) -> Seq<char> {
    match k {
        TsKind::Endtime => "endtime"@,
        TsKind::RunningTime => "running-time"@,
        TsKind::StreamTime => "stream-time"@,
        TsKind::Timestamp => "timestamp"@,
        TsKind::MsgTs => "msg-ts"@,
        TsKind::QueryPos => "query-pos"@,
        TsKind::Last => "last"@,
    }
}

/// The label of a timestamp source.
pub fn ts_label(k: TsKind) -> (r: Vec<char>)
    ensures
        r@ == spec_ts_label(k),
{
    match k {
        TsKind::Endtime => str_chars("endtime"),
        TsKind::RunningTime => str_chars("running-time"),
        TsKind::StreamTime => str_chars("stream-time"),
        TsKind::Timestamp => str_chars("timestamp"),
        TsKind::MsgTs => str_chars("msg-ts"),
        TsKind::QueryPos => str_chars("query-pos"),
        TsKind::Last => str_chars("last"),
    }
}

/// Nanoseconds rendered as seconds with three decimals, truncated.
pub open spec fn spec_secs3(ns: u64) -> Seq<char> {
    let secs = ns as int / 1_000_000_000;
    let ms = (ns as int % 1_000_000_000) / 1_000_000;
    spec_dec(secs) + seq!['.'] + (if ms < 10 {
        seq!['0', '0'] + spec_dec(ms)
    } else if ms < 100 {
        seq!['0'] + spec_dec(ms)
    } else {
        spec_dec(ms)
    })
}

/// Render nanoseconds as seconds with three decimals, truncated.
pub fn secs3(ns: u64) -> (r: Vec<char>)
    ensures
        r@ == spec_secs3(ns),
{
    let secs: u64 = ns / 1_000_000_000;
    let ms: u64 = (ns % 1_000_000_000) / 1_000_000;
    let mut r = u64_to_chars(secs);
    r.push('.');
    if ms < 10 {
        r.push('0');
        r.push('0');
    } else if ms < 100 {
        r.push('0');
    }
    let d = u64_to_chars(ms);
    proof {
        assert(d@.take(0) =~= Seq::<char>::empty());
        assert(r@ =~= secs3_partial(ns, d@.take(0)));
    }
    let mut i: usize = 0;
    while i < d.len()
        invariant
            0 <= i <= d@.len(),
            r@ == secs3_partial(ns, d@.take(i as int)),
        decreases d@.len() - i,
    {
        r.push(d[i]);
        proof {
            assert(r@ =~= secs3_partial(ns, d@.take(i + 1)));
        }
        i = i + 1;
    }
    proof {
        assert(d@.take(d@.len() as int) =~= d@);
        assert(r@ =~= spec_secs3(ns));
    }
    r
}

/// The rendered prefix of `spec_secs3` before the millisecond digits, plus
/// a given run of those digits (helper for the proof above).
pub open spec fn secs3_partial(ns: u64, ms_digits: Seq<char>) -> Seq<char> {
    let secs = ns as int / 1_000_000_000;
    let ms = (ns as int % 1_000_000_000) / 1_000_000;
    spec_dec(secs) + seq!['.'] + (if ms < 10 {
        seq!['0', '0']
    } else if ms < 100 {
        seq!['0']
    } else {
        Seq::empty()
    }) + ms_digits
}

} // verus!
