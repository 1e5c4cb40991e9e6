//! Tag and format tracking: best-effort extraction of codec, bitrate, sample
//! rate and bit depth from tag text, and the change-gated tag state.
//!
//! Extraction is textual because decoders vary in which fields they expose;
//! a field that cannot be read is "no data", never an error. The tag state
//! latches each field independently: only non-empty / positive values are
//! taken, and a known-good value is never overwritten by an unknown one. A
//! combined tag event fires only when at least one field actually changed.

use vstd::prelude::*;
use crate::strutil::{
    first_sub,
    first_sat,
    last_sat_end,
    spec_trim,
    lower_seq,
    upper_seq,
    to_lower,
    to_upper,
    subvec,
    trim_range,
    find_first_sub,
    find_char,
    chars_eq,
    str_chars,
    lemma_first_sub_bounds,
    lemma_first_sat_at,
    lemma_last_sat_end_at,
};
use crate::numtext::{
    spec_is_digit,
    digits_val,
    digits_value_capped,
    first_idx,
    lemma_first_idx_at,
    spec_dec,
    u64_to_chars,
};

verus! {

/// The characters that end a tag value: field separators and a closing brace
/// or line break.
pub open spec fn spec_is_term(c: char) -> bool {
    c == ',' || c == ';' || c == '}' || c == '\n'
}

/// Whether `c` ends a tag value.
pub fn is_term(c: char) -> (r: bool)
    ensures
        r == spec_is_term(c),
{
    c == ',' || c == ';' || c == '}' || c == '\n'
}

/// The model of an optional character vector.
pub open spec fn opt_chars(o: Option<Vec<char>>) -> Option<Seq<char>> {
    match o {
        Some(v) => Some(v@),
        None => None,
    }
}

/// The value of `key` in a textual tag dump: the text after the first
/// `key=` (located case-insensitively), up to the first separator, trimmed,
/// with a leading `(type)` annotation and surrounding quotes removed; an
/// empty remainder is no value.
pub open spec fn spec_tag_value(text: Seq<char>, key: Seq<char>) -> Option<Seq<char>> {
    let lower = lower_seq(text);
    let pat = key + seq!['='];
    let p = first_sub(lower, pat);
    if p == lower.len() {
        None
    } else {
        let rest = text.skip(p + pat.len() as int);
        let raw = rest.take(first_sat(rest, |c: char| spec_is_term(c)));
        let v1 = spec_trim(raw);
        let q = first_idx(v1, ')');
        let v2 = if q < v1.len() {
            spec_trim(v1.skip(q + 1))
        } else {
            v1
        };
        if v2.len() >= 2 && v2[0] == '"' && v2.last() == '"' {
            let v3 = v2.subrange(1, v2.len() - 1);
            if v3.len() == 0 {
                None
            } else {
                Some(v3)
            }
        } else {
            if v2.len() == 0 {
                None
            } else {
                Some(v2)
            }
        }
    }
}

/// Extract the value of `key` from a textual tag dump.
pub fn tag_value(text: &Vec<char>, key: &Vec<char>) -> (r: Option<Vec<char>>)
    ensures
        opt_chars(r) == spec_tag_value(text@, key@),
{
    let lowered = to_lower(text);
    let mut pat = subvec(key, 0, key.len());
    pat.push('=');
    proof {
        assert(pat@ =~= key@ + seq!['=']);
    }
    let p = find_first_sub(&lowered, &pat);
    if p == lowered.len() {
        return None;
    }
    proof {
        lemma_first_sub_bounds(lowered@, pat@);
    }
    let start = p + pat.len();
    let ghost rest = text@.skip(start as int);
    let n = text.len();
    let mut t: usize = start;
    while t < n && !is_term(text[t])
        invariant
            start <= t <= n,
            n == text@.len(),
            start <= n,
            rest == text@.skip(start as int),
            forall|i: int| 0 <= i < t - start ==> !spec_is_term(#[trigger] rest[i]),
        decreases n - t,
    {
        proof {
            assert(rest[t - start] == text@[t as int]);
        }
        t = t + 1;
    }
    proof {
        if t < n {
            assert(rest[t - start] == text@[t as int]);
        }
        lemma_first_sat_at(rest, |c: char| spec_is_term(c), t - start);
        assert(text@.subrange(start as int, t as int) =~= rest.take(t - start));
    }
    let v1 = trim_range(text, start, t);
    let q = match find_char(&v1, ')', 0) {
        Some(i) => {
            proof {
                lemma_first_idx_at(v1@, ')', i as int);
            }
            i
        },
        None => {
            proof {
                lemma_first_idx_at(v1@, ')', v1@.len() as int);
            }
            v1.len()
        },
    };
    let v2 = if q < v1.len() {
        let w = trim_range(&v1, q + 1, v1.len());
        proof {
            assert(v1@.subrange(q + 1, v1@.len() as int) =~= v1@.skip(q + 1));
        }
        w
    } else {
        v1
    };
    if v2.len() >= 2 && v2[0] == '"' && v2[v2.len() - 1] == '"' {
        let v3 = subvec(&v2, 1, v2.len() - 1);
        if v3.len() == 0 {
            None
        } else {
            Some(v3)
        }
    } else {
        if v2.len() == 0 {
            None
        } else {
            Some(v2)
        }
    }
}

/// The start of the digit run that ends at `e` in `s`.
pub open spec fn digit_run_start(s: Seq<char>, e: int) -> int
    decreases e,
{
    if e <= 0 {
        0
    } else if spec_is_digit(s[e - 1]) {
        digit_run_start(s, e - 1)
    } else {
        e
    }
}

/// A position `a` at or below `e` with digits from `a` to `e` and a
/// non-digit just before `a` (when positive) is exactly `digit_run_start`.
pub proof fn lemma_digit_run_start_at(s: Seq<char>, e: int, a: int)
    requires
        0 <= a <= e <= s.len(),
        forall|i: int| a <= i < e ==> spec_is_digit(#[trigger] s[i]),
        a > 0 ==> !spec_is_digit(s[a - 1]),
    ensures
        digit_run_start(s, e) == a,
    decreases e,
{
    if e <= 0 {
    } else if e == a {
    } else {
        lemma_digit_run_start_at(s, e - 1, a);
    }
}

/// The value of the last digit run of `pre`, if `pre` ends in digits after
/// skipping trailing non-digits; `None` when `pre` holds no digit.
pub open spec fn spec_last_digit_run_val(pre: Seq<char>) -> Option<int> {
    let e = last_sat_end(pre, |c: char| spec_is_digit(c));
    if e == 0 {
        None
    } else {
        Some(digits_val(pre.subrange(digit_run_start(pre, e), e)))
    }
}

/// A positive 32-bit value from an optional run value; zero, absent or
/// overflowing runs give nothing.
pub open spec fn pos_i32_of(v: Option<int>) -> Option<i32> {
    match v {
        Some(x) => if 0 < x <= 0x7fff_ffff {
            Some(x as i32)
        } else {
            None
        },
        None => None,
    }
}

/// The value of the last digit run of `v@.subrange(0, hi)`, as a positive
/// 32-bit number.
fn last_digit_run_pos_i32(v: &Vec<char>, hi: usize) -> (r: Option<i32>)
    requires
        hi <= v@.len(),
    ensures
        r == pos_i32_of(spec_last_digit_run_val(v@.subrange(0, hi as int))),
{
    let ghost pre = v@.subrange(0, hi as int);
    let mut e: usize = hi;
    while e > 0 && !('0' <= v[e - 1] && v[e - 1] <= '9')
        invariant
            0 <= e <= hi <= v@.len(),
            pre == v@.subrange(0, hi as int),
            forall|i: int| e <= i < hi ==> !spec_is_digit(#[trigger] pre[i]),
        decreases e,
    {
        proof {
            assert(pre[e - 1] == v@[e - 1]);
        }
        e = e - 1;
    }
    proof {
        if e > 0 {
            assert(pre[e - 1] == v@[e - 1]);
        }
        lemma_last_sat_end_at(pre, |c: char| spec_is_digit(c), e as int);
    }
    if e == 0 {
        return None;
    }
    let mut a: usize = e;
    while a > 0 && ('0' <= v[a - 1] && v[a - 1] <= '9')
        invariant
            0 <= a <= e <= hi <= v@.len(),
            pre == v@.subrange(0, hi as int),
            forall|i: int| a <= i < e ==> spec_is_digit(#[trigger] pre[i]),
        decreases a,
    {
        proof {
            assert(pre[a - 1] == v@[a - 1]);
        }
        a = a - 1;
    }
    proof {
        if a > 0 {
            assert(pre[a - 1] == v@[a - 1]);
        }
        lemma_digit_run_start_at(pre, e as int, a as int);
        assert(v@.subrange(a as int, e as int) =~= pre.subrange(a as int, e as int));
    }
    proof {
        assert forall|i: int| 0 <= i < e - a implies spec_is_digit(
            #[trigger] v@.subrange(a as int, e as int)[i],
        ) by {
            assert(v@.subrange(a as int, e as int)[i] == v@[a + i]);
            assert(pre[a + i] == v@[a + i]);
        }
    }
    match digits_value_capped(v, a, e, 0x7fff_ffff) {
        None => None,
        Some(x) => {
            if x > 0 {
                Some(x as i32)
            } else {
                None
            }
        },
    }
}

/// The sample rate a codec description names: the digit run just before the
/// first case-insensitive `hz`.
pub open spec fn spec_rate_from_codec(codec: Seq<char>) -> Option<i32> {
    let low = lower_seq(codec);
    let p = first_sub(low, "hz"@);
    if p == low.len() {
        None
    } else {
        pos_i32_of(spec_last_digit_run_val(low.take(p)))
    }
}

/// The bit depth a codec description names: the digit run just before the
/// first case-insensitive `-bit`, or failing that ` bit`.
pub open spec fn spec_depth_from_codec(codec: Seq<char>) -> Option<i32> {
    let low = lower_seq(codec);
    let p1 = first_sub(low, "-bit"@);
    let p2 = first_sub(low, " bit"@);
    let p = if p1 < low.len() {
        p1
    } else {
        p2
    };
    if p == low.len() {
        None
    } else {
        pos_i32_of(spec_last_digit_run_val(low.take(p)))
    }
}

/// Extract the sample rate and bit depth a free-text codec description
/// names, via the `<n> hz` and `<n>-bit` / `<n> bit` patterns.
pub fn rate_depth_from_codec_text(codec: &Vec<char>) -> (r: (Option<i32>, Option<i32>))
    ensures
        r.0 == spec_rate_from_codec(codec@),
        r.1 == spec_depth_from_codec(codec@),
{
    let low = to_lower(codec);
    let hz = str_chars("hz");
    proof {
        reveal_strlit("hz");
        reveal_strlit("-bit");
        reveal_strlit(" bit");
    }
    let rate = {
        let p = find_first_sub(&low, &hz);
        if p == low.len() {
            None
        } else {
            proof {
                assert(low@.subrange(0, p as int) =~= low@.take(p as int));
            }
            last_digit_run_pos_i32(&low, p)
        }
    };
    let dash_bit = str_chars("-bit");
    let space_bit = str_chars(" bit");
    let depth = {
        let p1 = find_first_sub(&low, &dash_bit);
        let p = if p1 < low.len() {
            p1
        } else {
            find_first_sub(&low, &space_bit)
        };
        if p == low.len() {
            None
        } else {
            proof {
                assert(low@.subrange(0, p as int) =~= low@.take(p as int));
            }
            last_digit_run_pos_i32(&low, p)
        }
    };
    (rate, depth)
}

/// The bit depth an audio format name carries: 24 for the packed `S24_32`
/// layouts, else the first digit run (case-insensitively), when positive.
pub open spec fn spec_depth_from_format(fmt: Seq<char>) -> Option<i32> {
    let up = upper_seq(fmt);
    if first_sub(up, "S24_32"@) < up.len() {
        Some(24)
    } else {
        let a = first_sat(up, |c: char| spec_is_digit(c));
        if a == up.len() {
            None
        } else {
            let b = a + first_sat(up.skip(a), |c: char| !spec_is_digit(c));
            pos_i32_of(Some(digits_val(up.subrange(a, b))))
        }
    }
}

/// Extract the bit depth from an audio format name such as `S24LE`.
pub fn depth_from_format(fmt: &Vec<char>) -> (r: Option<i32>)
    ensures
        r == spec_depth_from_format(fmt@),
{
    let up = to_upper(fmt);
    let marker = str_chars("S24_32");
    proof {
        reveal_strlit("S24_32");
    }
    if find_first_sub(&up, &marker) < up.len() {
        return Some(24);
    }
    let n = up.len();
    let mut a: usize = 0;
    while a < n && !('0' <= up[a] && up[a] <= '9')
        invariant
            0 <= a <= n == up@.len(),
            forall|i: int| 0 <= i < a ==> !spec_is_digit(#[trigger] up@[i]),
        decreases n - a,
    {
        a = a + 1;
    }
    proof {
        lemma_first_sat_at(up@, |c: char| spec_is_digit(c), a as int);
    }
    if a == n {
        return None;
    }
    let mut b: usize = a;
    while b < n && ('0' <= up[b] && up[b] <= '9')
        invariant
            0 <= a <= b <= n == up@.len(),
            forall|i: int| a <= i < b ==> spec_is_digit(#[trigger] up@[i]),
        decreases n - b,
    {
        b = b + 1;
    }
    proof {
        let ghost sk = up@.skip(a as int);
        assert forall|i: int| 0 <= i < b - a implies spec_is_digit(#[trigger] sk[i]) by {
            assert(sk[i] == up@[a + i]);
        }
        if b < n {
            assert(sk[b - a] == up@[b as int]);
        }
        lemma_first_sat_at(sk, |c: char| !spec_is_digit(c), b - a);
    }
    proof {
        assert forall|i: int| 0 <= i < b - a implies spec_is_digit(
            #[trigger] up@.subrange(a as int, b as int)[i],
        ) by {
            assert(up@.subrange(a as int, b as int)[i] == up@[a + i]);
        }
    }
    match digits_value_capped(&up, a, b, 0x7fff_ffff) {
        None => None,
        Some(x) => {
            if x > 0 {
                Some(x as i32)
            } else {
                None
            }
        },
    }
}

/// The model of the latched tag state.
pub struct TagModel {
    pub codec: Seq<char>,
    pub bitrate: i32,
    pub rate: i32,
    pub depth: i32,
}

/// Latched tag/format fields: codec name, bitrate, sample rate, bit depth.
/// Zero means unknown for the numeric fields; empty means unknown for the
/// codec.
pub struct TagState {
    pub codec: Vec<char>,
    pub bitrate: i32,
    pub rate: i32,
    pub depth: i32,
}

impl View for TagState {
    type V = TagModel;

    open spec fn view(&self) -> TagModel {
        TagModel { codec: self.codec@, bitrate: self.bitrate, rate: self.rate, depth: self.depth }
    }
}

/// A codec update takes effect only when non-empty.
pub open spec fn upd_codec(cur: Seq<char>, c: Option<Seq<char>>) -> Seq<char> {
    match c {
        Some(x) => if x.len() > 0 {
            x
        } else {
            cur
        },
        None => cur,
    }
}

/// A numeric update takes effect only when positive.
pub open spec fn upd_pos(cur: i32, v: Option<i32>) -> i32 {
    match v {
        Some(x) => if x > 0 {
            x
        } else {
            cur
        },
        None => cur,
    }
}

/// Whether a codec update would change the state.
pub open spec fn codec_changes(m: TagModel, c: Option<Seq<char>>) -> bool {
    match c {
        Some(x) => x.len() > 0 && x != m.codec,
        None => false,
    }
}

/// Whether a numeric update would change the given current value.
pub open spec fn pos_changes(cur: i32, v: Option<i32>) -> bool {
    match v {
        Some(x) => x > 0 && x != cur,
        None => false,
    }
}

/// Whether an update with these fields changes at least one latched value.
pub open spec fn tag_changed(
    m: TagModel,
    c: Option<Seq<char>>,
    b: Option<i32>,
    r: Option<i32>,
    d: Option<i32>,
) -> bool {
    codec_changes(m, c) || pos_changes(m.bitrate, b) || pos_changes(m.rate, r) || pos_changes(
        m.depth,
        d,
    )
}

/// The state after an update: each field latched independently.
pub open spec fn tag_applied(
    m: TagModel,
    c: Option<Seq<char>>,
    b: Option<i32>,
    r: Option<i32>,
    d: Option<i32>,
) -> TagModel {
    TagModel {
        codec: upd_codec(m.codec, c),
        bitrate: upd_pos(m.bitrate, b),
        rate: upd_pos(m.rate, r),
        depth: upd_pos(m.depth, d),
    }
}

impl TagState {
    /// The all-unknown initial state.
    pub fn new() -> (r: Self)
        ensures
            r@.codec.len() == 0,
            r@.bitrate == 0,
            r@.rate == 0,
            r@.depth == 0,
    {
        TagState { codec: Vec::new(), bitrate: 0, rate: 0, depth: 0 }
    }

    /// Reset every field to unknown, as a source swap does.
    pub fn reset(&mut self)
        ensures
            final(self)@.codec.len() == 0,
            final(self)@.bitrate == 0,
            final(self)@.rate == 0,
            final(self)@.depth == 0,
    {
        self.codec = Vec::new();
        self.bitrate = 0;
        self.rate = 0;
        self.depth = 0;
    }

    /// Latch the given fields; the result says whether anything changed —
    /// only then does a tag event fire.
    pub fn apply_update(
        &mut self,
        codec: Option<Vec<char>>,
        bitrate: Option<i32>,
        rate: Option<i32>,
        depth: Option<i32>,
    ) -> (changed: bool)
        ensures
            final(self)@ == tag_applied(old(self)@, opt_chars(codec), bitrate, rate, depth),
            changed == tag_changed(old(self)@, opt_chars(codec), bitrate, rate, depth),
    {
        let mut changed: bool = false;
        match codec {
            Some(c) => {
                if c.len() > 0 {
                    if !chars_eq(&c, &self.codec) {
                        changed = true;
                    }
                    self.codec = c;
                }
            },
            None => {},
        }
        match bitrate {
            Some(x) => {
                if x > 0 {
                    if x != self.bitrate {
                        changed = true;
                    }
                    self.bitrate = x;
                }
            },
            None => {},
        }
        match rate {
            Some(x) => {
                if x > 0 {
                    if x != self.rate {
                        changed = true;
                    }
                    self.rate = x;
                }
            },
            None => {},
        }
        match depth {
            Some(x) => {
                if x > 0 {
                    if x != self.depth {
                        changed = true;
                    }
                    self.depth = x;
                }
            },
            None => {},
        }
        changed
    }
}

/// Law: feeding the fields an update just latched does not notify again —
/// identical consecutive updates fire at most one event.
pub proof fn lemma_tag_renotify_gated(
    m: TagModel,
    c: Option<Seq<char>>,
    b: Option<i32>,
    r: Option<i32>,
    d: Option<i32>,
)
    ensures
        !tag_changed(tag_applied(m, c, b, r, d), c, b, r, d),
{
}

/// Law: after a full update, changing exactly the sample rate notifies, and
/// the state after it is the previous state with just the rate replaced.
pub proof fn lemma_tag_single_field_merge(m: TagModel, r2: i32)
    requires
        r2 > 0,
        r2 != m.rate,
    ensures
        tag_changed(m, None, None, Some(r2), None),
        tag_applied(m, None, None, Some(r2), None) == (TagModel { rate: r2, ..m }),
{
}

/// Law: a latched field never regresses to unknown — once the codec is
/// non-empty or a numeric field is positive, every later update leaves it
/// non-empty or positive.
pub proof fn lemma_tag_no_regress(
    m: TagModel,
    c: Option<Seq<char>>,
    b: Option<i32>,
    r: Option<i32>,
    d: Option<i32>,
)
    ensures
        m.codec.len() > 0 ==> tag_applied(m, c, b, r, d).codec.len() > 0,
        m.bitrate > 0 ==> tag_applied(m, c, b, r, d).bitrate > 0,
        m.rate > 0 ==> tag_applied(m, c, b, r, d).rate > 0,
        m.depth > 0 ==> tag_applied(m, c, b, r, d).depth > 0,
{
}

/// Law: after a full update, changing exactly the codec notifies, and the
/// state after it is the previous state with just the codec replaced.
pub proof fn lemma_tag_single_codec_merge(m: TagModel, c2: Seq<char>)
    requires
        c2.len() > 0,
        c2 != m.codec,
    ensures
        tag_changed(m, Some(c2), None, None, None),
        tag_applied(m, Some(c2), None, None, None) == (TagModel { codec: c2, ..m }),
{
}

/// The textual payload of a tag event: the known fields as `name=value`
/// segments joined by semicolons.
pub open spec fn join_semi(parts: Seq<Seq<char>>) -> Seq<char>
    decreases parts.len(),
{
    if parts.len() == 0 {
        Seq::empty()
    } else if parts.len() == 1 {
        parts[0]
    } else {
        join_semi(parts.drop_last()) + seq![';'] + parts.last()
    }
}

/// The present parts of a tag event, in order.
pub open spec fn tag_parts(m: TagModel) -> Seq<Seq<char>> {
    let p0 = if m.codec.len() > 0 {
        seq![Seq::<char>::empty() + "codec="@ + m.codec]
    } else {
        Seq::<Seq<char>>::empty()
    };
    let p1 = if m.bitrate > 0 {
        p0.push(Seq::<char>::empty() + "bitrate="@ + spec_dec(m.bitrate as int))
    } else {
        p0
    };
    let p2 = if m.rate > 0 {
        p1.push(Seq::<char>::empty() + "rate="@ + spec_dec(m.rate as int))
    } else {
        p1
    };
    if m.depth > 0 {
        p2.push(Seq::<char>::empty() + "depth="@ + spec_dec(m.depth as int))
    } else {
        p2
    }
}

/// The payload text of a tag event for state `m`.
pub open spec fn tag_event_text(m: TagModel) -> Seq<char> {
    join_semi(tag_parts(m))
}

/// Appending one more part to a join adds a semicolon only when parts came
/// before.
pub proof fn lemma_join_semi_push(parts: Seq<Seq<char>>, q: Seq<char>)
    ensures
        parts.len() == 0 ==> join_semi(parts.push(q)) == q,
        parts.len() > 0 ==> join_semi(parts.push(q)) == join_semi(parts) + seq![';'] + q,
{
    assert(parts.push(q).drop_last() =~= parts);
    assert(parts.push(q).last() == q);
}

/// Push every character of `src` onto `dst`.
pub fn append_chars(dst: &mut Vec<char>, src: &Vec<char>)
    ensures
        final(dst)@ == old(dst)@ + src@,
{
    let mut i: usize = 0;
    while i < src.len()
        invariant
            0 <= i <= src@.len(),
            dst@ == old(dst)@ + src@.take(i as int),
        decreases src@.len() - i,
    {
        dst.push(src[i]);
        proof {
            assert(dst@ =~= old(dst)@ + src@.take(i + 1));
        }
        i = i + 1;
    }
    proof {
        assert(old(dst)@ + src@.take(src@.len() as int) =~= old(dst)@ + src@);
    }
}

/// A label followed by a tail, as event texts are put together.
pub fn label_concat(label: &str, tail: &Vec<char>) -> (r: Vec<char>)
    ensures
        r@ == label@ + tail@,
{
    let mut t = str_chars(label);
    append_chars(&mut t, tail);
    t
}

/// Build the payload of a tag event from the latched state.
pub fn build_tag_event(st: &TagState) -> (r: Vec<char>)
    ensures
        r@ == tag_event_text(st@),
{
    let mut out: Vec<char> = Vec::new();
    let mut any: bool = false;
    let ghost mut parts: Seq<Seq<char>> = Seq::empty();
    if st.codec.len() > 0 {
        let lbl = str_chars("codec=");
        append_chars(&mut out, &lbl);
        append_chars(&mut out, &st.codec);
        any = true;
        proof {
            parts = parts.push(Seq::<char>::empty() + "codec="@ + st@.codec);
            assert(out@ =~= Seq::<char>::empty() + "codec="@ + st@.codec);
            assert(out@ == join_semi(parts));
        }
    }
    if st.bitrate > 0 {
        if any {
            out.push(';');
        }
        let lbl = str_chars("bitrate=");
        append_chars(&mut out, &lbl);
        let digits = u64_to_chars(st.bitrate as u64);
        append_chars(&mut out, &digits);
        proof {
            let q = Seq::<char>::empty() + "bitrate="@ + spec_dec(st@.bitrate as int);
            lemma_join_semi_push(parts, q);
            if any {
                assert(out@ =~= join_semi(parts) + seq![';'] + q);
            } else {
                assert(out@ =~= q);
            }
            parts = parts.push(q);
            assert(out@ == join_semi(parts));
        }
        any = true;
    }
    if st.rate > 0 {
        if any {
            out.push(';');
        }
        let lbl = str_chars("rate=");
        append_chars(&mut out, &lbl);
        let digits = u64_to_chars(st.rate as u64);
        append_chars(&mut out, &digits);
        proof {
            let q = Seq::<char>::empty() + "rate="@ + spec_dec(st@.rate as int);
            lemma_join_semi_push(parts, q);
            if any {
                assert(out@ =~= join_semi(parts) + seq![';'] + q);
            } else {
                assert(out@ =~= q);
            }
            parts = parts.push(q);
            assert(out@ == join_semi(parts));
        }
        any = true;
    }
    if st.depth > 0 {
        if any {
            out.push(';');
        }
        let lbl = str_chars("depth=");
        append_chars(&mut out, &lbl);
        let digits = u64_to_chars(st.depth as u64);
        append_chars(&mut out, &digits);
        proof {
            let q = Seq::<char>::empty() + "depth="@ + spec_dec(st@.depth as int);
            lemma_join_semi_push(parts, q);
            if any {
                assert(out@ =~= join_semi(parts) + seq![';'] + q);
            } else {
                assert(out@ =~= q);
            }
            parts = parts.push(q);
            assert(out@ == join_semi(parts));
        }
        any = true;
    }
    proof {
        assert(parts =~= tag_parts(st@));
    }
    out
}

} // verus!
