use vstd::prelude::*;
use vstd::arithmetic::div_mod::{lemma_fundamental_div_mod, lemma_fundamental_div_mod_converse};

use crate::text::{lemma_zero_padded_injective, zero_padded, zero_padded_decimal};

verus! {

/// Samples in one segment file: 30 minutes at 16 kHz
/// (`SAMPLE_RATE * 1800`).
pub const SEGMENT_SAMPLES: usize = 28_800_000;

/// Tracks where the next sample of a long recording goes when it is cut
/// into segment files of `seg_len` samples each: which part is being
/// written and how many samples it already holds.
pub struct SegmentCursor {
    open: bool,
    written: usize,
    part: usize,
    seg_len: usize,
}

/// The abstract state of a `SegmentCursor`.
pub struct CursorView {
    /// Whether a segment file is open.
    pub open: bool,
    /// Samples written to the open segment.
    pub written: nat,
    /// Index of the open (or next) segment.
    pub part: nat,
    /// Samples per segment.
    pub seg_len: nat,
}

/// What to do with the files before writing one sample: open the first
/// segment, and/or finish the open segment and open the next one.
pub struct SampleStep {
    /// Open segment `k` (no segment was open).
    pub open_part: Option<usize>,
    /// Finish the open segment and open segment `k`.
    pub rotate_to: Option<usize>,
}

impl View for SegmentCursor {
    type V = CursorView;

    closed spec fn view(&self) -> CursorView {
        CursorView {
            open: self.open,
            written: self.written as nat,
            part: self.part as nat,
            seg_len: self.seg_len as nat,
        }
    }
}

pub open spec fn opt_nat(o: Option<usize>) -> Option<nat> {
    match o {
        Some(k) => Some(k as nat),
        None => None,
    }
}

/// The state once a segment is sure to be open, and the segment opened for that.
pub open spec fn after_open(c: CursorView) -> (CursorView, Option<nat>) {
    if !c.open {
        (CursorView { open: true, written: 0, ..c }, Some(c.part))
    } else {
        (c, None)
    }
}

/// Whether placing the next sample finishes the open segment.
pub open spec fn rotates(c: CursorView) -> bool {
    after_open(c).0.written >= c.seg_len
}

/// Placing one sample: open a segment if none is, move to the next segment
/// if the open one is full, then count the sample in the open segment.
/// Gives the new state, the segment opened first, and the segment rotated to.
pub open spec fn place(c: CursorView) -> (CursorView, Option<nat>, Option<nat>) {
    let (c1, opened) = after_open(c);
    if c1.written >= c1.seg_len {
        (CursorView { written: 1, part: c1.part + 1, ..c1 }, opened, Some(c1.part + 1))
    } else {
        (CursorView { written: c1.written + 1, ..c1 }, opened, None)
    }
}

/// The state after `n` samples have been placed by a fresh cursor.
pub open spec fn placed(seg_len: nat, n: nat) -> CursorView
    decreases n,
{
    if n == 0 {
        CursorView { open: false, written: 0, part: 0, seg_len }
    } else {
        place(placed(seg_len, (n - 1) as nat)).0
    }
}

impl SegmentCursor {
    #[verifier::type_invariant]
    spec fn inv(self) -> bool {
        self.written <= self.seg_len || self.written <= 1
    }

    /// A cursor before the first sample: no segment open, part 0 next.
    pub fn new(seg_len: usize) -> (r: Self)
        ensures
            r@ == (CursorView { open: false, written: 0, part: 0, seg_len: seg_len as nat }),
    {
        SegmentCursor { open: false, written: 0, part: 0, seg_len }
    }

    /// Index of the open segment, or of the first one before any sample.
    pub fn part_index(&self) -> (r: usize)
        ensures
            r == self@.part,
    {
        self.part
    }

    /// Whether a segment is open.
    pub fn is_open(&self) -> (r: bool)
        ensures
            r == self@.open,
    {
        self.open
    }

    /// Whether the next sample finishes the open segment.
    pub fn rotates_next(&self) -> (r: bool)
        ensures
            r == rotates(self@),
    {
        !self.open && self.seg_len == 0 || self.open && self.written >= self.seg_len
    }

    /// Places one sample: says which segment file to open or to move to
    /// before the sample is written, as `place` does.
    pub fn place_sample(&mut self) -> (step: SampleStep)
        requires
            rotates(old(self)@) ==> old(self)@.part < usize::MAX,
        ensures
            final(self)@ == place(old(self)@).0,
            opt_nat(step.open_part) == place(old(self)@).1,
            opt_nat(step.rotate_to) == place(old(self)@).2,
    {
        proof {
            use_type_invariant(&*self);
        }
        let mut open_part = None;
        if !self.open {
            open_part = Some(self.part);
            self.open = true;
            self.written = 0;
        }
        let mut rotate_to = None;
        if self.written >= self.seg_len {
            self.part = self.part + 1;
            rotate_to = Some(self.part);
            self.written = 0;
        }
        self.written = self.written + 1;
        SampleStep { open_part, rotate_to }
    }
}

/// After `n + 1` samples, sample `n` (counting from 0) sits in segment
/// `n / seg_len` at position `n % seg_len`: every segment but the last holds
/// exactly `seg_len` samples. Segment 0 is opened by the first sample, and a
/// new segment is started exactly by the samples whose index is a positive
/// multiple of `seg_len`.
pub proof fn lemma_sample_placement(seg_len: nat, n: nat)
    requires
        seg_len > 0,
    ensures
        placed(seg_len, n + 1).open,
        placed(seg_len, n + 1).part == n / seg_len,
        placed(seg_len, n + 1).written == n % seg_len + 1,
        placed(seg_len, n + 1).seg_len == seg_len,
        place(placed(seg_len, n)).1 == (if n == 0 { Some(0nat) } else { None }),
        place(placed(seg_len, n)).2 == (if n > 0 && n % seg_len == 0 {
            Some(n / seg_len)
        } else {
            None
        }),
    decreases n,
{
    if n == 0 {
        lemma_fundamental_div_mod_converse(0, seg_len as int, 0, 0);
        assert(placed(seg_len, 1) == place(placed(seg_len, 0)).0);
    } else {
        let m = (n - 1) as nat;
        lemma_sample_placement(seg_len, m);
        let prev = placed(seg_len, n);
        assert(prev == place(placed(seg_len, m)).0);
        let q = m / seg_len;
        let r = m % seg_len;
        assert(prev.part == q && prev.written == r + 1 && prev.open);
        lemma_fundamental_div_mod(m as int, seg_len as int);
        assert(placed(seg_len, n + 1) == place(prev).0);
        if r + 1 == seg_len {
            assert(n == (q + 1) * seg_len + 0) by (nonlinear_arith)
                requires
                    m == seg_len * q + r,
                    r + 1 == seg_len,
                    n == m + 1,
            ;
            lemma_fundamental_div_mod_converse(n as int, seg_len as int, (q + 1) as int, 0);
            assert(placed(seg_len, n + 1).part == q + 1);
        } else {
            assert(r + 1 < seg_len);
            assert(n == q * seg_len + (r + 1)) by (nonlinear_arith)
                requires
                    m == seg_len * q + r,
                    n == m + 1,
            ;
            lemma_fundamental_div_mod_converse(n as int, seg_len as int, q as int, (r + 1) as int);
            assert(placed(seg_len, n + 1).part == q);
        }
    }
}

/// The name of the file of segment `k`.
pub open spec fn segment_name(k: nat) -> Seq<char> {
    "part_"@ + zero_padded(k, 3) + ".wav"@
}

/// Different segments get different file names, so no segment file
/// overwrites another.
pub proof fn lemma_segment_names_distinct(j: nat, k: nat)
    requires
        j != k,
    ensures
        segment_name(j) != segment_name(k),
{
    if segment_name(j) == segment_name(k) {
        reveal_strlit("part_");
        reveal_strlit(".wav");
        let a = segment_name(j);
        let pj = zero_padded(j, 3);
        let pk = zero_padded(k, 3);
        assert(a.len() == 5 + pj.len() + 4);
        assert(pj == a.subrange(5, a.len() - 4));
        assert(pk == segment_name(k).subrange(5, a.len() - 4));
        lemma_zero_padded_injective(j, k, 3);
    }
}

/// The file name of segment `k`: `part_` and `k` with at least three digits,
/// then `.wav`.
pub fn segment_file_name(k: usize) -> (r: String)
    ensures
        r@ == segment_name(k as nat),
{
    let mut r = String::from_str("part_");
    let digits = zero_padded_decimal(k as u64, 3);
    r.append(digits.as_str());
    r.append(".wav");
    r
}

} // verus!
