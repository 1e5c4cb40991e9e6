//! The audio-server metadata protocol's value logic: the allowed-rates
//! write, the forced clock rate, the settings read-back, and the stream
//! latency match.
//!
//! Every metadata call is a per-call synchronous session the host drives:
//! connect, enumerate the registry, bind the `settings` object, exchange a
//! property, tear down. What goes over the wire and what comes back is
//! decided and interpreted here, on plain values.

use vstd::prelude::*;
use crate::strutil::{
    spec_trim,
    trim_range,
    lower_seq,
    to_lower,
    first_sub,
    find_first_sub,
    chars_eq,
    str_chars,
};
use crate::numtext::{
    spec_parse_i32,
    parse_i32_range,
    parse_mag_milli,
    first_idx,
    lemma_first_idx_at,
    spec_dec,
    u64_to_chars,
};
use crate::spectrum::accepted_mag;
use crate::tags::append_chars;

verus! {

/// Whether a rates vector is strictly ascending.
pub open spec fn sorted_strict(s: Seq<i32>) -> bool {
    forall|i: int, j: int| 0 <= i < j < s.len() ==> s[i] < s[j]
}

/// The positive rate a comma-separated token contributes, if any: the token
/// is trimmed and parsed as a 32-bit integer; empty, malformed, zero and
/// negative tokens contribute nothing.
pub open spec fn rate_of_token(tok: Seq<char>) -> Option<i32> {
    match spec_parse_i32(spec_trim(tok)) {
        Some(x) => if x > 0 {
            Some(x)
        } else {
            None
        },
        None => None,
    }
}

/// The set of rates a comma-separated list denotes, with `cur` the token
/// under construction.
pub open spec fn rates_acc(s: Seq<char>, cur: Seq<char>) -> Set<i32>
    decreases s.len(),
{
    if s.len() == 0 {
        match rate_of_token(cur) {
            Some(x) => Set::empty().insert(x),
            None => Set::empty(),
        }
    } else if s[0] == ',' {
        (match rate_of_token(cur) {
            Some(x) => Set::<i32>::empty().insert(x),
            None => Set::<i32>::empty(),
        }).union(rates_acc(s.drop_first(), Seq::empty()))
    } else {
        rates_acc(s.drop_first(), cur.push(s[0]))
    }
}

/// The set of rates a comma-separated list denotes.
pub open spec fn spec_rates(csv: Seq<char>) -> Set<i32> {
    rates_acc(csv, Seq::empty())
}

/// Insert a rate into a strictly ascending vector, keeping it ascending and
/// duplicate-free.
fn insert_rate(v: &mut Vec<i32>, x: i32)
    requires
        sorted_strict(old(v)@),
    ensures
        sorted_strict(final(v)@),
        final(v)@.to_set() == old(v)@.to_set().insert(x),
        final(v)@.len() >= 1,
{
    let n = v.len();
    let mut idx: usize = 0;
    while idx < n && v[idx] < x
        invariant
            sorted_strict(v@),
            v@ == old(v)@,
            n == v@.len(),
            0 <= idx <= n,
            forall|k: int| 0 <= k < idx ==> v@[k] < x,
        decreases n - idx,
    {
        idx = idx + 1;
    }
    if idx < n && v[idx] == x {
        proof {
            assert(v@.contains(x));
            assert(v@.to_set() =~= v@.to_set().insert(x));
        }
        return ;
    }
    v.insert(idx, x);
    proof {
        let s0 = old(v)@;
        let s1 = v@;
        assert(s1 =~= s0.take(idx as int) + seq![x] + s0.skip(idx as int));
        assert forall|i: int, j: int| 0 <= i < j < s1.len() implies s1[i] < s1[j] by {
            if j < idx {
            } else if i < idx && j == idx {
                assert(s1[i] == s0[i]);
            } else if i == idx && j > idx {
                assert(s1[j] == s0[j - 1]);
                assert(s0[idx as int] <= s0[j - 1]);
            } else if i < idx && j > idx {
                assert(s1[i] == s0[i] && s1[j] == s0[j - 1]);
                assert(s0[i] < x);
                if idx < s0.len() {
                    assert(s0[idx as int] > x || s0[idx as int] != x);
                }
            } else if i > idx || (i == idx && false) {
                assert(s1[i] == s0[i - 1] && s1[j] == s0[j - 1]);
            } else {
            }
        }
        assert forall|y: i32| s1.contains(y) implies (s0.contains(y) || y == x) by {
            let k = choose|k: int| 0 <= k < s1.len() && s1[k] == y;
            if k < idx {
                assert(s0[k] == y);
            } else if k > idx {
                assert(s0[k - 1] == y);
            }
        }
        assert forall|y: i32| s0.contains(y) || y == x implies s1.contains(y) by {
            if s0.contains(y) {
                let k = choose|k: int| 0 <= k < s0.len() && s0[k] == y;
                if k < idx {
                    assert(s1[k] == y);
                } else {
                    assert(s1[k + 1] == y);
                }
            } else {
                assert(s1[idx as int] == x);
            }
        }
        assert(s1.to_set() =~= s0.to_set().insert(x));
    }
}

/// Parse a comma-separated allowed-rates list: the distinct positive rates,
/// ascending. An empty resulting set — in particular an empty or
/// whitespace-only list — is a failure with the error text
/// `empty allowed-rates`.
pub fn parse_allowed_rates(csv: &Vec<char>) -> (r: Result<Vec<i32>, Vec<char>>)
    ensures
        match r {
            Ok(v) => {
                &&& v@.len() >= 1
                &&& sorted_strict(v@)
                &&& v@.to_set() == spec_rates(csv@)
            },
            Err(t) => t@ == "empty allowed-rates"@ && spec_rates(csv@) =~= Set::empty(),
        },
{
    let n = csv.len();
    let mut out: Vec<i32> = Vec::new();
    let mut ts: usize = 0;
    let mut i: usize = 0;
    proof {
        assert(csv@.skip(0) =~= csv@);
        assert(csv@.subrange(0, 0) =~= Seq::<char>::empty());
        assert(out@.to_set() =~= Set::<i32>::empty());
        assert(Set::<i32>::empty().union(rates_acc(csv@, Seq::<char>::empty())) =~= rates_acc(
            csv@,
            Seq::<char>::empty(),
        ));
    }
    while i < n
        invariant
            0 <= ts <= i <= n,
            n == csv@.len(),
            sorted_strict(out@),
            spec_rates(csv@) == out@.to_set().union(
                rates_acc(csv@.skip(i as int), csv@.subrange(ts as int, i as int)),
            ),
        decreases n - i,
    {
        let c = csv[i];
        let ghost cur = csv@.subrange(ts as int, i as int);
        proof {
            assert(csv@.skip(i as int)[0] == csv@[i as int]);
            assert(csv@.skip(i as int).drop_first() =~= csv@.skip(i + 1));
        }
        if c == ',' {
            let ghost out0 = out@;
            let ghost rest = rates_acc(csv@.skip(i + 1), Seq::<char>::empty());
            proof {
                assert(rates_acc(csv@.skip(i as int), cur) == (match rate_of_token(cur) {
                    Some(x) => Set::<i32>::empty().insert(x),
                    None => Set::<i32>::empty(),
                }).union(rest));
            }
            match token_rate(csv, ts, i) {
                Some(x) => {
                    proof {
                        assert(rate_of_token(cur) == Some(x));
                    }
                    insert_rate(&mut out, x);
                    proof {
                        assert(out@.to_set().union(rest) =~= out0.to_set().union(
                            (Set::<i32>::empty().insert(x)).union(rest),
                        ));
                    }
                },
                None => {
                    proof {
                        assert(rate_of_token(cur) is None);
                        assert(out@.to_set().union(rest) =~= out0.to_set().union(
                            (Set::<i32>::empty()).union(rest),
                        ));
                    }
                },
            }
            i = i + 1;
            ts = i;
            proof {
                assert(csv@.subrange(ts as int, i as int) =~= Seq::<char>::empty());
            }
        } else {
            proof {
                assert(cur.push(csv@[i as int]) =~= csv@.subrange(ts as int, i + 1));
            }
            i = i + 1;
        }
    }
    let ghost cur = csv@.subrange(ts as int, n as int);
    let ghost out0 = out@;
    proof {
        assert(csv@.skip(n as int).len() == 0);
        assert(rates_acc(csv@.skip(n as int), cur) == (match rate_of_token(cur) {
            Some(x) => Set::<i32>::empty().insert(x),
            None => Set::<i32>::empty(),
        }));
    }
    match token_rate(csv, ts, n) {
        Some(x) => {
            proof {
                assert(rate_of_token(cur) == Some(x));
            }
            insert_rate(&mut out, x);
            proof {
                assert(out@.to_set() =~= out0.to_set().union(Set::<i32>::empty().insert(x)));
            }
        },
        None => {
            proof {
                assert(rate_of_token(cur) is None);
                assert(out@.to_set() =~= out0.to_set().union(Set::<i32>::empty()));
            }
        },
    }
    if out.len() == 0 {
        proof {
            assert(out@.to_set() =~= Set::<i32>::empty());
            assert(spec_rates(csv@) =~= Set::empty());
        }
        Err(str_chars("empty allowed-rates"))
    } else {
        Ok(out)
    }
}

/// The rate a token range contributes.
fn token_rate(v: &Vec<char>, lo: usize, hi: usize) -> (r: Option<i32>)
    requires
        lo <= hi <= v@.len(),
    ensures
        r == rate_of_token(v@.subrange(lo as int, hi as int)),
{
    let t = trim_range(v, lo, hi);
    match parse_i32_range(&t, 0, t.len()) {
        Some(x) => {
            proof {
                assert(t@.subrange(0, t@.len() as int) =~= t@);
            }
            if x > 0 {
                Some(x)
            } else {
                None
            }
        },
        None => {
            proof {
                assert(t@.subrange(0, t@.len() as int) =~= t@);
            }
            None
        },
    }
}

/// The serialized allowed-rates literal: the rates, space-separated, inside
/// brackets, as the metadata tool writes array-like values.
pub open spec fn spec_rates_literal(v: Seq<i32>) -> Seq<char> {
    Seq::<char>::empty() + "[ "@ + rates_body(v) + " ]"@
}

/// The space-joined body of the rates literal.
pub open spec fn rates_body(v: Seq<i32>) -> Seq<char>
    decreases v.len(),
{
    if v.len() == 0 {
        Seq::empty()
    } else if v.len() == 1 {
        spec_dec(v[0] as int)
    } else {
        rates_body(v.drop_last()) + seq![' '] + spec_dec(v.last() as int)
    }
}

/// Serialize an ascending rates vector as a bracketed space-separated
/// literal.
pub fn rates_literal(v: &Vec<i32>) -> (r: Vec<char>)
    requires
        forall|i: int| 0 <= i < v@.len() ==> v@[i] > 0,
    ensures
        r@ == spec_rates_literal(v@),
{
    let mut body: Vec<char> = Vec::new();
    let mut i: usize = 0;
    while i < v.len()
        invariant
            0 <= i <= v@.len(),
            forall|k: int| 0 <= k < v@.len() ==> v@[k] > 0,
            body@ == rates_body(v@.take(i as int)),
        decreases v@.len() - i,
    {
        if i > 0 {
            body.push(' ');
        }
        let d = u64_to_chars(v[i] as u64);
        append_chars(&mut body, &d);
        proof {
            assert(v@.take(i + 1).drop_last() =~= v@.take(i as int));
            assert(v@.take(i + 1).last() == v@[i as int]);
            assert(body@ =~= rates_body(v@.take(i + 1)));
        }
        i = i + 1;
    }
    proof {
        assert(v@.take(v@.len() as int) =~= v@);
    }
    let mut r = str_chars("[ ");
    append_chars(&mut r, &body);
    let close = str_chars(" ]");
    append_chars(&mut r, &close);
    proof {
        assert(r@ =~= spec_rates_literal(v@));
    }
    r
}

/// The value written for the forced clock rate: the rate itself, or `0` to
/// release the forcing for a non-positive request.
pub open spec fn spec_force_rate_value(rate: i32) -> Seq<char> {
    if rate <= 0 {
        "0"@
    } else {
        spec_dec(rate as int)
    }
}

/// The value written for the forced clock rate.
pub fn force_rate_value(rate: i32) -> (r: Vec<char>)
    ensures
        r@ == spec_force_rate_value(rate),
{
    if rate <= 0 {
        str_chars("0")
    } else {
        u64_to_chars(rate as u64)
    }
}

/// The settings read back from the server's metadata object. Zero means
/// unknown.
pub struct SettingsReading {
    pub force_rate: i32,
    pub allowed_raw: Vec<char>,
    pub quantum: i32,
    pub rate: i32,
}

/// The model of a settings reading.
pub struct SettingsModel {
    pub force_rate: i32,
    pub allowed_raw: Seq<char>,
    pub quantum: i32,
    pub rate: i32,
}

impl View for SettingsReading {
    type V = SettingsModel;

    open spec fn view(&self) -> SettingsModel {
        SettingsModel {
            force_rate: self.force_rate,
            allowed_raw: self.allowed_raw@,
            quantum: self.quantum,
            rate: self.rate,
        }
    }
}

/// A non-negative parsed value, or the current one when the text does not
/// parse.
pub open spec fn upd_parsed(cur: i32, v: Seq<char>) -> i32 {
    match spec_parse_i32(v) {
        Some(x) => if x >= 0 {
            x
        } else {
            0
        },
        None => cur,
    }
}

/// How one reported metadata property updates the reading: the recognized
/// clock keys parse their (trimmed) values, clamped at zero; the
/// allowed-rates raw text is kept as is; other keys change nothing.
pub open spec fn spec_apply_property(
    m: SettingsModel,
    key: Seq<char>,
    value: Seq<char>,
) -> SettingsModel {
    let v = spec_trim(value);
    if key == "clock.force-rate"@ {
        SettingsModel { force_rate: upd_parsed(m.force_rate, v), ..m }
    } else if key == "clock.allowed-rates"@ {
        SettingsModel { allowed_raw: v, ..m }
    } else if key == "clock.quantum"@ {
        SettingsModel { quantum: upd_parsed(m.quantum, v), ..m }
    } else if key == "clock.rate"@ {
        SettingsModel { rate: upd_parsed(m.rate, v), ..m }
    } else {
        m
    }
}

impl SettingsReading {
    /// An all-unknown reading.
    pub fn new() -> (r: Self)
        ensures
            r@.force_rate == 0,
            r@.allowed_raw.len() == 0,
            r@.quantum == 0,
            r@.rate == 0,
    {
        SettingsReading { force_rate: 0, allowed_raw: Vec::new(), quantum: 0, rate: 0 }
    }

    /// Fold one reported metadata property into the reading.
    pub fn apply_property(&mut self, key: &Vec<char>, value: &Vec<char>)
        ensures
            final(self)@ == spec_apply_property(old(self)@, key@, value@),
    {
        let v = trim_range(value, 0, value.len());
        proof {
            assert(value@.subrange(0, value@.len() as int) =~= value@);
        }
        let k_force = str_chars("clock.force-rate");
        let k_allowed = str_chars("clock.allowed-rates");
        let k_quantum = str_chars("clock.quantum");
        let k_rate = str_chars("clock.rate");
        if chars_eq(key, &k_force) {
            match parse_i32_range(&v, 0, v.len()) {
                Some(x) => {
                    proof {
                        assert(v@.subrange(0, v@.len() as int) =~= v@);
                    }
                    self.force_rate = if x >= 0 {
                        x
                    } else {
                        0
                    };
                },
                None => {
                    proof {
                        assert(v@.subrange(0, v@.len() as int) =~= v@);
                    }
                },
            }
        } else if chars_eq(key, &k_allowed) {
            self.allowed_raw = v;
        } else if chars_eq(key, &k_quantum) {
            match parse_i32_range(&v, 0, v.len()) {
                Some(x) => {
                    proof {
                        assert(v@.subrange(0, v@.len() as int) =~= v@);
                    }
                    self.quantum = if x >= 0 {
                        x
                    } else {
                        0
                    };
                },
                None => {
                    proof {
                        assert(v@.subrange(0, v@.len() as int) =~= v@);
                    }
                },
            }
        } else if chars_eq(key, &k_rate) {
            match parse_i32_range(&v, 0, v.len()) {
                Some(x) => {
                    proof {
                        assert(v@.subrange(0, v@.len() as int) =~= v@);
                    }
                    self.rate = if x >= 0 {
                        x
                    } else {
                        0
                    };
                },
                None => {
                    proof {
                        assert(v@.subrange(0, v@.len() as int) =~= v@);
                    }
                },
            }
        }
    }
}

/// Bound on latency figures: a million seconds, in millionths of a
/// millisecond.
pub const LAT_MICRO_MS_CAP: i64 = 1_000_000_000_000_000;

/// Truncating division toward zero, for a positive divisor.
pub open spec fn tdiv(a: int, b: int) -> int {
    if a >= 0 {
        a / b
    } else {
        -((-a) / b)
    }
}

/// The latency a latency text denotes, in millionths of a millisecond: a
/// `num/den` fraction is samples over rate, converted to milliseconds and
/// truncated toward zero; a plain non-negative number is taken as
/// milliseconds already. Values beyond `LAT_MICRO_MS_CAP` in magnitude are
/// unusable.
pub open spec fn spec_latency_micro_ms(s: Seq<char>) -> Option<i64> {
    let t = spec_trim(s);
    if t.len() == 0 {
        None
    } else {
        let sl = first_idx(t, '/');
        if sl < t.len() {
            let num = accepted_mag(spec_trim(t.take(sl)));
            let den = accepted_mag(spec_trim(t.skip(sl + 1)));
            match (num, den) {
                (Some(a), Some(b)) => if b > 0 {
                    let v = tdiv(a as int * 1_000_000_000, b as int);
                    if -LAT_MICRO_MS_CAP <= v <= LAT_MICRO_MS_CAP {
                        Some(v as i64)
                    } else {
                        None
                    }
                } else {
                    None
                },
                _ => None,
            }
        } else {
            match accepted_mag(t) {
                Some(a) => if a >= 0 {
                    Some((a as int * 1000) as i64)
                } else {
                    None
                },
                None => None,
            }
        }
    }
}

/// Parse a latency text (fraction or plain number) into micro-milliseconds.
pub fn parse_latency_micro_ms(s: &Vec<char>) -> (r: Option<i64>)
    ensures
        r == spec_latency_micro_ms(s@),
{
    let t = trim_range(s, 0, s.len());
    proof {
        assert(s@.subrange(0, s@.len() as int) =~= s@);
    }
    if t.len() == 0 {
        return None;
    }
    let sl = match crate::strutil::find_char(&t, '/', 0) {
        Some(i) => {
            proof {
                lemma_first_idx_at(t@, '/', i as int);
            }
            i
        },
        None => {
            proof {
                lemma_first_idx_at(t@, '/', t@.len() as int);
            }
            t.len()
        },
    };
    if sl < t.len() {
        let a_t = trim_range(&t, 0, sl);
        proof {
            assert(t@.subrange(0, sl as int) =~= t@.take(sl as int));
        }
        let b_t = trim_range(&t, sl + 1, t.len());
        proof {
            assert(t@.subrange(sl + 1, t@.len() as int) =~= t@.skip(sl + 1));
        }
        let num = parse_mag_milli(&a_t, 0, a_t.len());
        let den = parse_mag_milli(&b_t, 0, b_t.len());
        proof {
            assert(a_t@.subrange(0, a_t@.len() as int) =~= a_t@);
            assert(b_t@.subrange(0, b_t@.len() as int) =~= b_t@);
            assert(num == accepted_mag(a_t@));
            assert(den == accepted_mag(b_t@));
        }
        match (num, den) {
            (Some(a), Some(b)) => {
                if b > 0 {
                    let wide: i128 = (a as i128) * 1_000_000_000;
                    let q: i128 = if wide >= 0 {
                        wide / (b as i128)
                    } else {
                        -((-wide) / (b as i128))
                    };
                    proof {
                        assert(q == tdiv(a as int * 1_000_000_000, b as int));
                    }
                    if -LAT_MICRO_MS_CAP as i128 <= q && q <= LAT_MICRO_MS_CAP as i128 {
                        Some(q as i64)
                    } else {
                        None
                    }
                } else {
                    None
                }
            },
            _ => None,
        }
    } else {
        match parse_mag_milli(&t, 0, t.len()) {
            Some(a) => {
                proof {
                    assert(t@.subrange(0, t@.len() as int) =~= t@);
                    assert(Some(a) == accepted_mag(t@));
                }
                if a >= 0 {
                    Some(a * 1000)
                } else {
                    None
                }
            },
            None => {
                proof {
                    assert(t@.subrange(0, t@.len() as int) =~= t@);
                }
                None
            },
        }
    }
}

/// One output stream node of the server's registry, as the host saw it
/// during enumeration: its media class, the owning application's process
/// id, binary and name, and the node's latency text (the `node.latency`
/// property, or `node.max-latency` when the first is absent).
pub struct PwStreamNode {
    pub media_class: Vec<char>,
    pub app_pid: Vec<char>,
    pub app_bin: Vec<char>,
    pub app_name: Vec<char>,
    pub latency: Vec<char>,
}

/// The model of a stream node.
pub struct PwStreamModel {
    pub media_class: Seq<char>,
    pub app_pid: Seq<char>,
    pub app_bin: Seq<char>,
    pub app_name: Seq<char>,
    pub latency: Seq<char>,
}

impl View for PwStreamNode {
    type V = PwStreamModel;

    open spec fn view(&self) -> PwStreamModel {
        PwStreamModel {
            media_class: self.media_class@,
            app_pid: self.app_pid@,
            app_bin: self.app_bin@,
            app_name: self.app_name@,
            latency: self.latency@,
        }
    }
}

/// The models of a node list.
pub open spec fn node_models(s: Seq<PwStreamNode>) -> Seq<PwStreamModel> {
    s.map_values(|n: PwStreamNode| n@)
}

/// The latency a node offers, when it is an audio output stream with a
/// parseable latency.
pub open spec fn node_candidate(n: PwStreamModel) -> Option<i64> {
    if first_sub(n.media_class, "Stream/Output/Audio"@) < n.media_class.len() {
        spec_latency_micro_ms(n.latency)
    } else {
        None
    }
}

/// Whether a node belongs to this process by an exact process-id match.
pub open spec fn node_pid_match(n: PwStreamModel, own_pid: Seq<char>) -> bool {
    n.app_pid == own_pid
}

/// Whether a node matches the wrapped-runtime heuristic on the binary and
/// application names — a documented fallback for runtimes whose stream does
/// not carry this process's id.
pub open spec fn node_heur_match(n: PwStreamModel) -> bool {
    first_sub(n.app_bin, "python"@) < n.app_bin.len() || first_sub(
        lower_seq(n.app_name),
        "hiresti"@,
    ) < n.app_name.len()
}

/// The candidate latency of the last node with an exact process-id match,
/// scanning in order.
pub open spec fn last_pid_latency(s: Seq<PwStreamModel>, own_pid: Seq<char>) -> Option<i64>
    decreases s.len(),
{
    if s.len() == 0 {
        None
    } else {
        let n = s.last();
        match node_candidate(n) {
            Some(v) => if node_pid_match(n, own_pid) {
                Some(v)
            } else {
                last_pid_latency(s.drop_last(), own_pid)
            },
            None => last_pid_latency(s.drop_last(), own_pid),
        }
    }
}

/// The candidate latency of the first node matching the wrapped-runtime
/// heuristic.
pub open spec fn first_heur_latency(s: Seq<PwStreamModel>) -> Option<i64>
    decreases s.len(),
{
    if s.len() == 0 {
        None
    } else {
        match first_heur_latency(s.drop_last()) {
            Some(v) => Some(v),
            None => {
                let n = s.last();
                match node_candidate(n) {
                    Some(v) => if node_heur_match(n) {
                        Some(v)
                    } else {
                        None
                    },
                    None => None,
                }
            },
        }
    }
}

/// The first non-negative candidate latency of any stream node.
pub open spec fn first_candidate_latency(s: Seq<PwStreamModel>) -> Option<i64>
    decreases s.len(),
{
    if s.len() == 0 {
        None
    } else {
        match first_candidate_latency(s.drop_last()) {
            Some(v) => Some(v),
            None => {
                match node_candidate(s.last()) {
                    Some(v) => if v >= 0 {
                        Some(v)
                    } else {
                        None
                    },
                    None => None,
                }
            },
        }
    }
}

/// The latency this process's stream reports, matched in order: an exact
/// process-id match first (the last such node when several), then the first
/// wrapped-runtime heuristic match, then the first candidate stream found.
/// A tier answers only with a non-negative value; the heuristic never
/// overrides an exact process-id match.
pub open spec fn spec_select_latency(s: Seq<PwStreamModel>, own_pid: Seq<char>) -> Option<i64> {
    match last_pid_latency(s, own_pid) {
        Some(v) => if v >= 0 {
            Some(v)
        } else {
            spec_select_heur(s)
        },
        None => spec_select_heur(s),
    }
}

/// The heuristic and first-candidate tiers of the latency match.
pub open spec fn spec_select_heur(s: Seq<PwStreamModel>) -> Option<i64> {
    match first_heur_latency(s) {
        Some(v) => if v >= 0 {
            Some(v)
        } else {
            first_candidate_latency(s)
        },
        None => first_candidate_latency(s),
    }
}

/// Select this process's stream latency out of the enumerated nodes.
pub fn select_stream_latency(nodes: &Vec<PwStreamNode>, own_pid: &Vec<char>) -> (r: Option<i64>)
    ensures
        r == spec_select_latency(node_models(nodes@), own_pid@),
{
    let cls = str_chars("Stream/Output/Audio");
    let py = str_chars("python");
    let hr = str_chars("hiresti");
    proof {
        reveal_strlit("Stream/Output/Audio");
        reveal_strlit("python");
        reveal_strlit("hiresti");
    }
    let mut pid_found: Option<i64> = None;
    let mut heur_found: Option<i64> = None;
    let mut cand_found: Option<i64> = None;
    let mut i: usize = 0;
    let ghost ms = node_models(nodes@);
    proof {
        assert(ms.take(0) =~= Seq::<PwStreamModel>::empty());
    }
    while i < nodes.len()
        invariant
            0 <= i <= nodes@.len(),
            ms == node_models(nodes@),
            cls@ == "Stream/Output/Audio"@,
            py@ == "python"@,
            hr@ == "hiresti"@,
            pid_found == last_pid_latency(ms.take(i as int), own_pid@),
            heur_found == first_heur_latency(ms.take(i as int)),
            cand_found == first_candidate_latency(ms.take(i as int)),
        decreases nodes@.len() - i,
    {
        let n = &nodes[i];
        proof {
            reveal_strlit("Stream/Output/Audio");
            reveal_strlit("python");
            reveal_strlit("hiresti");
            assert(ms.take(i + 1).drop_last() =~= ms.take(i as int));
            assert(ms.take(i + 1).last() == ms[i as int]);
        }
        let is_stream = find_first_sub(&n.media_class, &cls) < n.media_class.len();
        let cand: Option<i64> = if is_stream {
            parse_latency_micro_ms(&n.latency)
        } else {
            None
        };
        match cand {
            Some(v) => {
                if chars_eq(&n.app_pid, own_pid) {
                    pid_found = Some(v);
                }
                let lname = to_lower(&n.app_name);
                let heur = find_first_sub(&n.app_bin, &py) < n.app_bin.len() || find_first_sub(
                    &lname,
                    &hr,
                ) < lname.len();
                if heur {
                    match heur_found {
                        Some(_) => {},
                        None => {
                            heur_found = Some(v);
                        },
                    }
                }
                if v >= 0 {
                    match cand_found {
                        Some(_) => {},
                        None => {
                            cand_found = Some(v);
                        },
                    }
                }
            },
            None => {},
        }
        i = i + 1;
    }
    proof {
        assert(ms.take(nodes@.len() as int) =~= ms);
    }
    match pid_found {
        Some(v) if v >= 0 => {
            return Some(v);
        },
        _ => {},
    }
    match heur_found {
        Some(v) if v >= 0 => {
            return Some(v);
        },
        _ => {},
    }
    cand_found
}

} // verus!
