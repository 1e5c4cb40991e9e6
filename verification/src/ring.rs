//! Bounded ring of spectral-analysis frames with sequence-cursor pulls.
//!
//! Each accepted frame gets the next sequence id; the ring keeps the most
//! recent `RING_CAP` frames, silently evicting the oldest on overflow. A
//! delta-pull with cursor `S` returns the live frames with sequence id
//! greater than `S`, oldest first, truncated to the caller's limits.

use vstd::prelude::*;

verus! {

/// Capacity of the frame ring: older frames are evicted beyond this.
pub const RING_CAP: usize = 512;

/// Largest number of band magnitudes a frame can carry.
pub const BANDS_MAX: usize = 128;

/// One spectral frame: sequence id, timestamp in nanoseconds, and the band
/// magnitudes in thousandths of the analysis unit.
pub struct SpectrumFrame {
    pub seq: u64,
    pub pos_ns: u64,
    pub bands: Vec<i64>,
}

/// The mathematical content of a frame.
pub struct FrameModel {
    pub seq: u64,
    pub pos_ns: u64,
    pub bands: Seq<i64>,
}

impl View for SpectrumFrame {
    type V = FrameModel;

    open spec fn view(&self) -> FrameModel {
        FrameModel { seq: self.seq, pos_ns: self.pos_ns, bands: self.bands@ }
    }
}

/// The models of a sequence of frames.
pub open spec fn frame_models(s: Seq<SpectrumFrame>) -> Seq<FrameModel> {
    s.map_values(|f: SpectrumFrame| f@)
}

/// The smaller of two mathematical integers.
pub open spec fn imin(a: int, b: int) -> int {
    if a < b {
        a
    } else {
        b
    }
}

/// The successor of a sequence id; at the (practically unreachable) wrap the
/// numbering restarts at 1 and the ring is emptied, so ids stay strictly
/// increasing among live frames.
pub open spec fn next_seq(c: u64) -> u64 {
    if c == u64::MAX {
        1u64
    } else {
        (c + 1) as u64
    }
}

/// `f` with its band list truncated to at most `mb` entries.
pub open spec fn band_capped(f: FrameModel, mb: int) -> FrameModel {
    FrameModel { seq: f.seq, pos_ns: f.pos_ns, bands: f.bands.take(imin(mb, f.bands.len() as int)) }
}

/// The first index of `s` holding a frame with sequence id above `since`,
/// or `s.len()` when there is none. Meaningful when ids are ascending.
pub open spec fn first_newer(s: Seq<FrameModel>, since: u64) -> int
    decreases s.len(),
{
    if s.len() == 0 {
        0
    } else if s[0].seq > since {
        0
    } else {
        1 + first_newer(s.drop_first(), since)
    }
}

/// What a delta-pull returns: the live frames with sequence id above `since`,
/// oldest first, at most `mf` of them, each truncated to `mb` bands. Zero
/// limits yield nothing.
pub open spec fn spec_pull(s: Seq<FrameModel>, since: u64, mf: int, mb: int) -> Seq<FrameModel> {
    if mf <= 0 || mb <= 0 {
        Seq::empty()
    } else {
        let k = first_newer(s, since);
        Seq::new(imin(mf, s.len() - k) as nat, |i: int| band_capped(s[k + i], mb))
    }
}

/// What a push leaves as live frames: at the id wrap history restarts; at
/// capacity the oldest frame is evicted; then the new frame is appended.
pub open spec fn spec_push(
    s: Seq<FrameModel>,
    cur: u64,
    pos_ns: u64,
    bands: Seq<i64>,
) -> Seq<FrameModel> {
    let base = if cur == u64::MAX {
        Seq::<FrameModel>::empty()
    } else if s.len() >= RING_CAP {
        s.drop_first()
    } else {
        s
    };
    base.push(FrameModel { seq: next_seq(cur), pos_ns, bands })
}

/// The bounded frame history. `cur_seq` is the id of the last accepted frame
/// (0 before the first); it survives a clear, so ids are never reused.
pub struct SpectrumRing {
    frames: Vec<SpectrumFrame>,
    cur_seq: u64,
}

impl SpectrumRing {
    /// The models of the live frames, oldest first.
    pub closed spec fn live(&self) -> Seq<FrameModel> {
        frame_models(self.frames@)
    }

    /// The id of the last accepted frame, 0 before the first.
    pub closed spec fn spec_cur_seq(&self) -> u64 {
        self.cur_seq
    }

    /// Well-formed ring: occupancy bounded by the capacity, band counts in
    /// range, ids positive, strictly ascending and at most `cur_seq`.
    pub open spec fn wf(&self) -> bool {
        &&& self.live().len() <= RING_CAP
        &&& (forall|i: int|
            0 <= i < self.live().len() ==> 1 <= (#[trigger] self.live()[i]).seq
                <= self.spec_cur_seq())
        &&& (forall|i: int|
            0 <= i < self.live().len() ==> 1 <= (#[trigger] self.live()[i]).bands.len()
                <= BANDS_MAX)
        &&& (forall|i: int, j: int|
            0 <= i < j < self.live().len() ==> (#[trigger] self.live()[i]).seq < (
            #[trigger] self.live()[j]).seq)
    }

    /// An empty ring with the id counter at 0.
    pub fn new() -> (r: Self)
        ensures
            r.wf(),
            r.live() == Seq::<FrameModel>::empty(),
            r.spec_cur_seq() == 0,
    {
        let r = SpectrumRing { frames: Vec::new(), cur_seq: 0 };
        proof {
            assert(r.live() =~= Seq::<FrameModel>::empty());
        }
        r
    }

    /// The id of the last accepted frame, 0 before the first.
    pub fn current_seq(&self) -> (r: u64)
        ensures
            r == self.spec_cur_seq(),
    {
        self.cur_seq
    }

    /// How many frames are live.
    pub fn len(&self) -> (n: usize)
        ensures
            n == self.live().len(),
    {
        self.frames.len()
    }

    /// Drop all live frames; the id counter stays, so ids are not reused.
    pub fn clear(&mut self)
        ensures
            final(self).wf(),
            final(self).live() == Seq::<FrameModel>::empty(),
            final(self).spec_cur_seq() == old(self).spec_cur_seq(),
    {
        self.frames.clear();
        proof {
            assert(self.live() =~= Seq::<FrameModel>::empty());
        }
    }

    /// The most recent frame, if any.
    pub fn last_frame(&self) -> (r: Option<&SpectrumFrame>)
        ensures
            match r {
                Some(f) => self.live().len() > 0 && f@ == self.live().last(),
                None => self.live().len() == 0,
            },
    {
        let n = self.frames.len();
        if n == 0 {
            None
        } else {
            Some(&self.frames[n - 1])
        }
    }

    /// Accept a frame: assign it the next sequence id and append it, evicting
    /// the oldest frame when the ring is full.
    pub fn push_frame(&mut self, pos_ns: u64, bands: Vec<i64>)
        requires
            old(self).wf(),
            1 <= bands@.len() <= BANDS_MAX,
        ensures
            final(self).wf(),
            final(self).spec_cur_seq() == next_seq(old(self).spec_cur_seq()),
            final(self).live() == spec_push(
                old(self).live(),
                old(self).spec_cur_seq(),
                pos_ns,
                bands@,
            ),
    {
        let ghost s0 = self.live();
        let ghost c0 = self.cur_seq;
        if self.cur_seq == u64::MAX {
            self.frames.clear();
            self.cur_seq = 0;
        }
        if self.frames.len() >= RING_CAP {
            self.frames.remove(0);
        }
        self.cur_seq = self.cur_seq + 1;
        let f = SpectrumFrame { seq: self.cur_seq, pos_ns, bands };
        self.frames.push(f);
        proof {
            assert(self.live() =~= spec_push(s0, c0, pos_ns, bands@));
        }
    }

    /// Delta-pull: the live frames with sequence id above `since`, oldest
    /// first, at most `max_frames` of them, each truncated to `max_bands`
    /// band entries.
    pub fn pull_since(&self, since: u64, max_frames: usize, max_bands: usize) -> (r: Vec<
        SpectrumFrame,
    >)
        requires
            self.wf(),
        ensures
            frame_models(r@) == spec_pull(
                self.live(),
                since,
                max_frames as int,
                max_bands as int,
            ),
    {
        let mut r: Vec<SpectrumFrame> = Vec::new();
        if max_frames == 0 || max_bands == 0 {
            proof {
                assert(frame_models(r@) =~= spec_pull(
                    self.live(),
                    since,
                    max_frames as int,
                    max_bands as int,
                ));
            }
            return r;
        }
        proof {
            lemma_first_newer_bounds(self.live(), since);
        }
        let n = self.frames.len();
        let mut k: usize = 0;
        while k < n && self.frames[k].seq <= since
            invariant
                self.wf(),
                n == self.live().len(),
                0 <= k <= n,
                forall|i: int| 0 <= i < k ==> (#[trigger] self.live()[i]).seq <= since,
            decreases n - k,
        {
            k = k + 1;
        }
        proof {
            lemma_first_newer_at(self.live(), since, k as int);
        }
        let mut j: usize = 0;
        while j < max_frames && k + j < n
            invariant
                self.wf(),
                n == self.live().len(),
                0 <= k <= n,
                k == first_newer(self.live(), since),
                0 <= j <= max_frames,
                k + j <= n,
                max_frames >= 1,
                max_bands >= 1,
                r@.len() == j,
                forall|i: int|
                    0 <= i < j ==> (#[trigger] r@[i])@ == band_capped(
                        self.live()[k + i],
                        max_bands as int,
                    ),
            decreases n - k - j,
        {
            let src = &self.frames[k + j];
            let cap = if max_bands < src.bands.len() {
                max_bands
            } else {
                src.bands.len()
            };
            let bands = copy_prefix(&src.bands, cap);
            let f = SpectrumFrame { seq: src.seq, pos_ns: src.pos_ns, bands };
            proof {
                assert(f@.bands =~= band_capped(self.live()[k + j], max_bands as int).bands);
                assert(f@ == band_capped(self.live()[k + j], max_bands as int));
            }
            r.push(f);
            j = j + 1;
        }
        proof {
            assert(frame_models(r@) =~= spec_pull(
                self.live(),
                since,
                max_frames as int,
                max_bands as int,
            ));
        }
        r
    }
}

/// The first `n` entries of `v`, copied.
pub fn copy_prefix(v: &Vec<i64>, n: usize) -> (r: Vec<i64>)
    requires
        n <= v@.len(),
    ensures
        r@ == v@.take(n as int),
{
    let mut r: Vec<i64> = Vec::new();
    let mut i: usize = 0;
    while i < n
        invariant
            0 <= i <= n <= v@.len(),
            r@ == v@.take(i as int),
        decreases n - i,
    {
        let x = v[i];
        r.push(x);
        proof {
            assert(r@ =~= v@.take(i + 1));
        }
        i = i + 1;
    }
    r
}

/// Frame models with strictly ascending sequence ids; holds of the live
/// frames of every well-formed ring.
pub open spec fn models_sorted(s: Seq<FrameModel>) -> bool {
    forall|i: int, j: int| 0 <= i < j < s.len() ==> (#[trigger] s[i]).seq < (#[trigger] s[j]).seq
}

/// Law: a delta-pull with cursor `since` returns only frames with sequence id
/// above `since`, in strictly ascending id order.
pub proof fn lemma_pull_newer_ascending(s: Seq<FrameModel>, since: u64, mf: int, mb: int)
    requires
        models_sorted(s),
    ensures
        forall|i: int|
            0 <= i < spec_pull(s, since, mf, mb).len() ==> (#[trigger] spec_pull(
                s,
                since,
                mf,
                mb,
            )[i]).seq > since,
        forall|i: int, j: int|
            0 <= i < j < spec_pull(s, since, mf, mb).len() ==> (#[trigger] spec_pull(
                s,
                since,
                mf,
                mb,
            )[i]).seq < (#[trigger] spec_pull(s, since, mf, mb)[j]).seq,
{
    lemma_first_newer_bounds(s, since);
}

/// Law: with limits at least the occupancy and the band cap, a delta-pull
/// returns exactly the live frames whose sequence id is above the cursor —
/// one entry per such frame, oldest first — and a frame is returned if and
/// only if its id is above the cursor.
pub proof fn lemma_pull_exact(s: Seq<FrameModel>, since: u64, mf: int, mb: int)
    requires
        models_sorted(s),
        mf >= s.len(),
        mb >= 1,
    ensures
        spec_pull(s, since, mf, mb).len() == s.len() - first_newer(s, since),
        forall|i: int|
            0 <= i < spec_pull(s, since, mf, mb).len() ==> (#[trigger] spec_pull(
                s,
                since,
                mf,
                mb,
            )[i]) == band_capped(s[first_newer(s, since) + i], mb),
        forall|i: int|
            0 <= i < s.len() ==> ((#[trigger] s[i]).seq > since <==> first_newer(s, since) <= i),
{
    lemma_first_newer_bounds(s, since);
    if mf > 0 {
        assert forall|i: int| 0 <= i < s.len() implies ((#[trigger] s[i]).seq > since
            <==> first_newer(s, since) <= i) by {
            let k = first_newer(s, since);
            if k <= i && k < s.len() && i != k {
                assert(s[k].seq < s[i].seq);
            }
        }
    }
}

/// Law: a pull never returns more frames than the ring holds, and a
/// well-formed ring never holds more than `RING_CAP` frames — so once more
/// than `RING_CAP` frames were accepted, a full-history pull from cursor 0
/// still returns at most `RING_CAP` frames.
pub proof fn lemma_pull_bounded(r: &SpectrumRing, since: u64, mf: int, mb: int)
    requires
        r.wf(),
    ensures
        spec_pull(r.live(), since, mf, mb).len() <= r.live().len() <= RING_CAP,
{
    lemma_first_newer_bounds(r.live(), since);
}

/// Law: pulls that advance the cursor to the highest returned id never repeat
/// a frame: against the same history, every frame of the follow-up pull has a
/// strictly larger sequence id than every frame of the first.
pub proof fn lemma_repull_no_repeat(
    s: Seq<FrameModel>,
    since: u64,
    mf: int,
    mb: int,
    mf2: int,
    mb2: int,
)
    requires
        models_sorted(s),
        spec_pull(s, since, mf, mb).len() > 0,
    ensures
        forall|i: int, j: int|
            0 <= i < spec_pull(
                s,
                spec_pull(s, since, mf, mb).last().seq,
                mf2,
                mb2,
            ).len() && 0 <= j < spec_pull(s, since, mf, mb).len() ==> (#[trigger] spec_pull(
                s,
                spec_pull(s, since, mf, mb).last().seq,
                mf2,
                mb2,
            )[i]).seq > (#[trigger] spec_pull(s, since, mf, mb)[j]).seq,
{
    let c = spec_pull(s, since, mf, mb).last().seq;
    lemma_pull_newer_ascending(s, since, mf, mb);
    lemma_pull_newer_ascending(s, c, mf2, mb2);
    assert forall|j: int| 0 <= j < spec_pull(s, since, mf, mb).len() implies (#[trigger] spec_pull(
        s,
        since,
        mf,
        mb,
    )[j]).seq <= c by {
        let p1 = spec_pull(s, since, mf, mb);
        if j < p1.len() - 1 {
            assert(p1[j].seq < p1[p1.len() - 1].seq);
        }
    }
}

/// Law: when a pull was not truncated by its frame limit, advancing the
/// cursor to its highest returned sequence id leaves nothing to pull: the
/// follow-up pull against the same history returns no frame at all. (A
/// pull truncated by `mf` leaves its newer frames for the next pull.)
pub proof fn lemma_untruncated_pull_drains(
    s: Seq<FrameModel>,
    since: u64,
    mf: int,
    mb: int,
    mf2: int,
    mb2: int,
)
    requires
        models_sorted(s),
        mf >= s.len(),
        mb >= 1,
        spec_pull(s, since, mf, mb).len() > 0,
    ensures
        spec_pull(s, spec_pull(s, since, mf, mb).last().seq, mf2, mb2).len() == 0,
{
    lemma_pull_exact(s, since, mf, mb);
    lemma_first_newer_bounds(s, since);
    let p = spec_pull(s, since, mf, mb);
    let c = p.last().seq;
    assert(p.last() == band_capped(s[first_newer(s, since) + p.len() - 1], mb));
    assert(first_newer(s, since) + p.len() - 1 == s.len() - 1);
    assert(c == s[s.len() - 1].seq);
    assert forall|i: int| 0 <= i < s.len() implies (#[trigger] s[i]).seq <= c by {
        if i < s.len() - 1 {
            assert(s[i].seq < s[s.len() - 1].seq);
        }
    }
    lemma_first_newer_at(s, c, s.len() as int);
}

/// Law: a pull from cursor 0 of a well-formed ring returns one entry per
/// live frame, up to the frame limit — so with the ring full (as it stays
/// once more frames than `RING_CAP` have been accepted without a clear) and
/// limits at least the capacity, exactly `RING_CAP` frames come back.
pub proof fn lemma_pull_from_zero_complete(r: &SpectrumRing, mf: int, mb: int)
    requires
        r.wf(),
        mf >= 1,
        mb >= 1,
    ensures
        spec_pull(r.live(), 0, mf, mb).len() == imin(mf, r.live().len() as int),
{
    let s = r.live();
    if s.len() > 0 {
        assert(s[0].seq >= 1);
    }
    lemma_first_newer_at(s, 0, 0);
}

/// Law: short of the (practically unreachable) id wrap, a push assigns an
/// id no live frame carries — sequence ids are never reused.
pub proof fn lemma_push_never_reuses_ids(s: Seq<FrameModel>, cur: u64, pos_ns: u64, bands: Seq<i64>)
    requires
        cur < u64::MAX,
        forall|i: int| 0 <= i < s.len() ==> (#[trigger] s[i]).seq <= cur,
    ensures
        spec_push(s, cur, pos_ns, bands).last().seq == next_seq(cur),
        forall|i: int| 0 <= i < s.len() ==> (#[trigger] s[i]).seq != next_seq(cur),
{
}

/// `first_newer` lies between 0 and the length; everything before it is at or
/// below the cursor, and the frame at it (when it exists) is above.
pub proof fn lemma_first_newer_bounds(s: Seq<FrameModel>, since: u64)
    ensures
        0 <= first_newer(s, since) <= s.len(),
        forall|i: int| 0 <= i < first_newer(s, since) ==> (#[trigger] s[i]).seq <= since,
        first_newer(s, since) < s.len() ==> s[first_newer(s, since)].seq > since,
    decreases s.len(),
{
    if s.len() > 0 && !(s[0].seq > since) {
        lemma_first_newer_bounds(s.drop_first(), since);
        assert forall|i: int| 0 <= i < first_newer(s, since) implies (#[trigger] s[i]).seq
            <= since by {
            if i > 0 {
                assert(s.drop_first()[i - 1] == s[i]);
            }
        }
    }
}

/// A position with everything before it at or below the cursor and the frame
/// at it (when it exists) above is exactly `first_newer`.
pub proof fn lemma_first_newer_at(s: Seq<FrameModel>, since: u64, k: int)
    requires
        0 <= k <= s.len(),
        forall|i: int| 0 <= i < k ==> (#[trigger] s[i]).seq <= since,
        k < s.len() ==> s[k].seq > since,
    ensures
        first_newer(s, since) == k,
    decreases s.len(),
{
    if s.len() == 0 {
    } else if s[0].seq > since {
        assert(k == 0);
    } else {
        assert(s[0].seq <= since);
        assert(k >= 1);
        assert forall|i: int| 0 <= i < k - 1 implies (#[trigger] s.drop_first()[i]).seq
            <= since by {
            assert(s.drop_first()[i] == s[i + 1]);
        }
        if k - 1 < s.drop_first().len() {
            assert(s.drop_first()[k - 1] == s[k]);
        }
        lemma_first_newer_at(s.drop_first(), since, k - 1);
    }
}

} // verus!
