//! The frame-processing path: from raw interleaved pixels to the ordered
//! feed of encoded packets on a stream's track.
//!
//! Three rules of the capture pipeline live here, each verified:
//! - the capture-callback adapter never panics, drops a faulting frame
//!   instead of tearing the stream down, and drops frames rather than block
//!   when the downstream queue is full;
//! - frames cross from the callback to the encoder through a bounded FIFO
//!   queue whose entries carry strictly increasing capture indices;
//! - packets are forwarded to the track tagged with their frame index, and
//!   the feed stays in non-decreasing frame-index order.
//!
//! Color conversion to the encoder's planar layout is done in fixed-point
//! integer arithmetic from the standard luma/chroma derivation.

use vstd::prelude::*;

verus! {

/// Clamps a derived sample to the byte range.
pub open spec fn clamp_u8(v: int) -> u8 {
    if v < 0 {
        0u8
    } else if v > 255 {
        255u8
    } else {
        v as u8
    }
}

/// The luma of one pixel, from its blue, green and red samples.
pub open spec fn luma_of(b: u8, g: u8, r: u8) -> u8 {
    clamp_u8((77 * (r as int) + 150 * (g as int) + 29 * (b as int)) / 256)
}

/// The blue-difference chroma of one pixel.
pub open spec fn chroma_u_of(b: u8, g: u8, r: u8) -> u8 {
    clamp_u8((32768 - 38 * (r as int) - 74 * (g as int) + 112 * (b as int)) / 256)
}

/// The red-difference chroma of one pixel.
pub open spec fn chroma_v_of(b: u8, g: u8, r: u8) -> u8 {
    clamp_u8((32768 + 157 * (r as int) - 132 * (g as int) - 26 * (b as int)) / 256)
}

/// The luma plane of an interleaved 4-byte-per-pixel buffer, in scan order.
pub open spec fn y_plane_of(bgra: Seq<u8>) -> Seq<u8>
    decreases bgra.len(),
{
    if bgra.len() < 4 {
        Seq::empty()
    } else {
        seq![luma_of(bgra[0], bgra[1], bgra[2])] + y_plane_of(bgra.skip(4))
    }
}

/// One subsampled chroma-U row: every second pixel of one row of pixels.
pub open spec fn u_row_of(row: Seq<u8>) -> Seq<u8>
    decreases row.len(),
{
    if row.len() < 4 {
        Seq::empty()
    } else if row.len() < 8 {
        seq![chroma_u_of(row[0], row[1], row[2])]
    } else {
        seq![chroma_u_of(row[0], row[1], row[2])] + u_row_of(row.skip(8))
    }
}

/// One subsampled chroma-V row: every second pixel of one row of pixels.
pub open spec fn v_row_of(row: Seq<u8>) -> Seq<u8>
    decreases row.len(),
{
    if row.len() < 4 {
        Seq::empty()
    } else if row.len() < 8 {
        seq![chroma_v_of(row[0], row[1], row[2])]
    } else {
        seq![chroma_v_of(row[0], row[1], row[2])] + v_row_of(row.skip(8))
    }
}

/// The chroma-U plane: every second row, every second pixel.
pub open spec fn u_plane_of(bgra: Seq<u8>, width: nat) -> Seq<u8>
    decreases bgra.len(),
{
    if width == 0 || bgra.len() < 4 * width {
        Seq::empty()
    } else if bgra.len() < 8 * width {
        u_row_of(bgra.take(4 * width as int))
    } else {
        u_row_of(bgra.take(4 * width as int)) + u_plane_of(bgra.skip(8 * width as int), width)
    }
}

/// The chroma-V plane: every second row, every second pixel.
pub open spec fn v_plane_of(bgra: Seq<u8>, width: nat) -> Seq<u8>
    decreases bgra.len(),
{
    if width == 0 || bgra.len() < 4 * width {
        Seq::empty()
    } else if bgra.len() < 8 * width {
        v_row_of(bgra.take(4 * width as int))
    } else {
        v_row_of(bgra.take(4 * width as int)) + v_plane_of(bgra.skip(8 * width as int), width)
    }
}

/// The planar layout the encoder consumes: luma plane, then the two
/// subsampled chroma planes.
pub open spec fn i420_of(bgra: Seq<u8>, width: nat) -> Seq<u8> {
    y_plane_of(bgra) + u_plane_of(bgra, width) + v_plane_of(bgra, width)
}

/// The luma plane holds one sample per whole pixel.
proof fn lemma_y_plane_len(s: Seq<u8>)
    ensures
        y_plane_of(s).len() == s.len() / 4,
    decreases s.len(),
{
    if s.len() < 4 {
    } else {
        lemma_y_plane_len(s.skip(4));
        assert(s.len() / 4 == (s.len() - 4) / 4 + 1) by (nonlinear_arith)
            requires
                s.len() >= 4,
        ;
    }
}

/// One subsampled chroma row holds one sample per pixel pair.
proof fn lemma_u_row_len(row: Seq<u8>)
    ensures
        u_row_of(row).len() == (row.len() + 4) / 8,
        v_row_of(row).len() == (row.len() + 4) / 8,
    decreases row.len(),
{
    if row.len() < 8 {
    } else {
        lemma_u_row_len(row.skip(8));
        assert((row.len() + 4) / 8 == (row.len() - 8 + 4) / 8 + 1) by (nonlinear_arith)
            requires
                row.len() >= 8,
        ;
    }
}

/// On an exact buffer the chroma planes are subsampled two-to-one in both
/// directions.
proof fn lemma_chroma_plane_len(s: Seq<u8>, w: nat, h: nat)
    requires
        s.len() == 4 * w * h,
        w % 2 == 0,
        h % 2 == 0,
    ensures
        u_plane_of(s, w).len() == (w / 2) * (h / 2),
        v_plane_of(s, w).len() == (w / 2) * (h / 2),
    decreases h,
{
    if w == 0 {
        assert((w / 2) * (h / 2) == 0) by (nonlinear_arith)
            requires
                w == 0,
        ;
    } else if h == 0 {
        assert(s.len() == 0) by (nonlinear_arith)
            requires
                s.len() == 4 * w * 0,
        ;
        assert((w / 2) * (h / 2) == 0) by (nonlinear_arith)
            requires
                h == 0,
        ;
    } else {
        assert(h >= 2);
        assert(s.len() >= 8 * w) by (nonlinear_arith)
            requires
                s.len() == 4 * w * h,
                h >= 2,
                w > 0,
        ;
        let row = s.take(4 * w as int);
        let rest = s.skip(8 * w as int);
        lemma_u_row_len(row);
        assert(u_row_of(row).len() == w / 2) by (nonlinear_arith)
            requires
                u_row_of(row).len() == (4 * w + 4) / 8,
                w % 2 == 0,
        ;
        assert(v_row_of(row).len() == w / 2) by (nonlinear_arith)
            requires
                v_row_of(row).len() == (4 * w + 4) / 8,
                w % 2 == 0,
        ;
        assert(rest.len() == 4 * w * ((h - 2) as nat)) by (nonlinear_arith)
            requires
                s.len() == 4 * w * h,
                rest.len() == s.len() - 8 * w,
                h >= 2,
        ;
        lemma_chroma_plane_len(rest, w, (h - 2) as nat);
        assert(u_plane_of(s, w) == u_row_of(row) + u_plane_of(rest, w));
        assert(v_plane_of(s, w) == v_row_of(row) + v_plane_of(rest, w));
        assert(w / 2 + (w / 2) * (((h - 2) as nat) / 2) == (w / 2) * (h / 2)) by (nonlinear_arith)
            requires
                h >= 2,
                h % 2 == 0,
        ;
    }
}

/// The luma sample of one pixel.
fn luma_px(b: u8, g: u8, r: u8) -> (res: u8)
    ensures
        res == luma_of(b, g, r),
{
    let t: u32 = 77 * (r as u32) + 150 * (g as u32) + 29 * (b as u32);
    (t / 256) as u8
}

/// The chroma-U sample of one pixel.
fn chroma_u_px(b: u8, g: u8, r: u8) -> (res: u8)
    ensures
        res == chroma_u_of(b, g, r),
{
    let pos: u32 = 32768 + 112 * (b as u32);
    let neg: u32 = 38 * (r as u32) + 74 * (g as u32);
    let t: u32 = pos - neg;
    (t / 256) as u8
}

/// The chroma-V sample of one pixel.
fn chroma_v_px(b: u8, g: u8, r: u8) -> (res: u8)
    ensures
        res == chroma_v_of(b, g, r),
{
    let pos: u32 = 32768 + 157 * (r as u32);
    let neg: u32 = 132 * (g as u32) + 26 * (b as u32);
    if pos <= neg {
        0
    } else {
        let q: u32 = (pos - neg) / 256;
        if q > 255 {
            255
        } else {
            q as u8
        }
    }
}

/// Builds the luma plane of an interleaved buffer, one sample per pixel.
#[verifier::loop_isolation(false)]
fn luma_plane(bgra: &Vec<u8>) -> (y: Vec<u8>)
    ensures
        y@ == y_plane_of(bgra@),
{
    let n = bgra.len();
    let mut y: Vec<u8> = Vec::new();
    let mut idx: usize = 0;
    proof {
        assert(bgra@.skip(0) =~= bgra@);
        assert(Seq::<u8>::empty() + y_plane_of(bgra@) =~= y_plane_of(bgra@));
    }
    while idx < n && n - idx >= 4
        invariant
            idx <= bgra@.len(),
            y_plane_of(bgra@) == y@ + y_plane_of(bgra@.skip(idx as int)),
        decreases bgra@.len() - idx,
    {
        let b = bgra[idx];
        let g = bgra[idx + 1];
        let rr = bgra[idx + 2];
        proof {
            let s = bgra@.skip(idx as int);
            assert(s.len() >= 4);
            assert(s[0] == bgra@[idx as int]);
            assert(s[1] == bgra@[idx + 1]);
            assert(s[2] == bgra@[idx + 2]);
            assert(s.skip(4) =~= bgra@.skip(idx + 4));
            assert(y_plane_of(s) == seq![luma_of(s[0], s[1], s[2])] + y_plane_of(s.skip(4)));
        }
        y.push(luma_px(b, g, rr));
        proof {
            assert(y_plane_of(bgra@) =~= y@ + y_plane_of(bgra@.skip(idx + 4)));
        }
        idx = idx + 4;
    }
    proof {
        assert(y_plane_of(bgra@.skip(idx as int)) == Seq::<u8>::empty());
        assert(y@ =~= y_plane_of(bgra@));
    }
    y
}

/// Appends one subsampled chroma row, read at `base`, to both planes.
#[verifier::loop_isolation(false)]
#[verifier::rlimit(100)]
fn chroma_row(bgra: &Vec<u8>, base: usize, width: usize, u: &mut Vec<u8>, v: &mut Vec<u8>)
    requires
        width % 2 == 0,
        base + 4 * width <= bgra@.len(),
    ensures
        final(u)@ == old(u)@ + u_row_of(bgra@.skip(base as int).take(4 * width as int)),
        final(v)@ == old(v)@ + v_row_of(bgra@.skip(base as int).take(4 * width as int)),
{
    let n = bgra.len();
    proof {
        assert(n == bgra@.len());
    }
    let ghost rowseq = bgra@.skip(base as int).take(4 * width as int);
    let half_w = width / 2;
    let mut c: usize = 0;
    proof {
        assert(rowseq.skip(0) =~= rowseq);
    }
    while c < half_w
        invariant
            c <= half_w,
            old(u)@ + u_row_of(rowseq) == u@ + u_row_of(rowseq.skip(8 * c)),
            old(v)@ + v_row_of(rowseq) == v@ + v_row_of(rowseq.skip(8 * c)),
        decreases half_w - c,
    {
        proof {
            assert(8 * c + 8 <= 4 * width) by (nonlinear_arith)
                requires
                    c < half_w,
                    half_w == width / 2,
                    width % 2 == 0,
            ;
        }
        let idx = base + 8 * c;
        let b = bgra[idx];
        let g = bgra[idx + 1];
        let rr = bgra[idx + 2];
        proof {
            let rs = rowseq.skip(8 * c);
            assert(rs.len() >= 8);
            assert(rs[0] == bgra@[base + 8 * c]);
            assert(rs[1] == bgra@[base + 8 * c + 1]);
            assert(rs[2] == bgra@[base + 8 * c + 2]);
            assert(rs.skip(8) =~= rowseq.skip(8 * (c + 1)));
            assert(u_row_of(rs) == seq![chroma_u_of(rs[0], rs[1], rs[2])] + u_row_of(rs.skip(8)));
            assert(v_row_of(rs) == seq![chroma_v_of(rs[0], rs[1], rs[2])] + v_row_of(rs.skip(8)));
        }
        u.push(chroma_u_px(b, g, rr));
        v.push(chroma_v_px(b, g, rr));
        proof {
            assert(old(u)@ + u_row_of(rowseq) =~= u@ + u_row_of(rowseq.skip(8 * (c + 1))));
            assert(old(v)@ + v_row_of(rowseq) =~= v@ + v_row_of(rowseq.skip(8 * (c + 1))));
        }
        c = c + 1;
    }
    proof {
        assert(rowseq.skip(8 * half_w).len() == 0);
        assert(u_row_of(rowseq.skip(8 * half_w)) == Seq::<u8>::empty());
        assert(v_row_of(rowseq.skip(8 * half_w)) == Seq::<u8>::empty());
        assert(u@ =~= old(u)@ + u_row_of(rowseq));
        assert(v@ =~= old(v)@ + v_row_of(rowseq));
    }
}

/// Builds the two subsampled chroma planes of an interleaved buffer.
#[verifier::loop_isolation(false)]
#[verifier::rlimit(100)]
fn chroma_planes(bgra: &Vec<u8>, width: usize, height: usize) -> (uv: (Vec<u8>, Vec<u8>))
    requires
        width % 2 == 0,
        height % 2 == 0,
        bgra@.len() == 4 * width * height,
    ensures
        uv.0@ == u_plane_of(bgra@, width as nat),
        uv.1@ == v_plane_of(bgra@, width as nat),
{
    let n = bgra.len();
    proof {
        assert(n == bgra@.len());
    }
    let half_h = height / 2;
    let mut u: Vec<u8> = Vec::new();
    let mut v: Vec<u8> = Vec::new();
    let mut row: usize = 0;
    proof {
        assert(bgra@.skip(0) =~= bgra@);
        assert(Seq::<u8>::empty() + u_plane_of(bgra@, width as nat) =~= u_plane_of(
            bgra@,
            width as nat,
        ));
        assert(Seq::<u8>::empty() + v_plane_of(bgra@, width as nat) =~= v_plane_of(
            bgra@,
            width as nat,
        ));
    }
    while row < half_h
        invariant
            row <= half_h,
            u_plane_of(bgra@, width as nat) == u@ + u_plane_of(
                bgra@.skip(8 * (width * row)),
                width as nat,
            ),
            v_plane_of(bgra@, width as nat) == v@ + v_plane_of(
                bgra@.skip(8 * (width * row)),
                width as nat,
            ),
        decreases half_h - row,
    {
        proof {
            assert(8 * (width * row) + 8 * width <= 8 * (width * half_h)) by (nonlinear_arith)
                requires
                    row < half_h,
            ;
            assert(8 * (width * half_h) == bgra@.len()) by (nonlinear_arith)
                requires
                    height % 2 == 0,
                    half_h == height / 2,
                    bgra@.len() == 4 * width * height,
            ;
        }
        let base = 8 * (width * row);
        let ghost rowseq = bgra@.skip(base as int).take(4 * width as int);
        let ghost rest = bgra@.skip(base + 8 * width as int);
        proof {
            let s = bgra@.skip(base as int);
            assert(s.len() >= 8 * width);
            if width > 0 {
                assert(u_plane_of(s, width as nat) == u_row_of(s.take(4 * width as int))
                    + u_plane_of(s.skip(8 * width as int), width as nat));
                assert(v_plane_of(s, width as nat) == v_row_of(s.take(4 * width as int))
                    + v_plane_of(s.skip(8 * width as int), width as nat));
            } else {
                assert(u_plane_of(s, width as nat) == Seq::<u8>::empty());
                assert(u_row_of(rowseq) == Seq::<u8>::empty());
                assert(v_plane_of(s, width as nat) == Seq::<u8>::empty());
                assert(v_row_of(rowseq) == Seq::<u8>::empty());
            }
            assert(s.skip(8 * width as int) =~= rest);
            assert(s.take(4 * width as int) =~= rowseq);
            if width == 0 {
                assert(s =~= rest);
            }
        }
        chroma_row(bgra, base, width, &mut u, &mut v);
        proof {
            assert(rest =~= bgra@.skip(8 * (width * (row + 1)))) by {
                assert(8 * (width * (row + 1)) == 8 * (width * row) + 8 * width)
                    by (nonlinear_arith);
            }
            assert(u_plane_of(bgra@, width as nat) =~= u@ + u_plane_of(
                bgra@.skip(8 * (width * (row + 1))),
                width as nat,
            ));
            assert(v_plane_of(bgra@, width as nat) =~= v@ + v_plane_of(
                bgra@.skip(8 * (width * (row + 1))),
                width as nat,
            ));
        }
        row = row + 1;
    }
    proof {
        assert(8 * (width * half_h) == bgra@.len()) by (nonlinear_arith)
            requires
                height % 2 == 0,
                half_h == height / 2,
                bgra@.len() == 4 * width * height,
        ;
        assert(bgra@.skip(8 * (width * half_h)).len() == 0);
        assert(u_plane_of(bgra@.skip(8 * (width * half_h)), width as nat) == Seq::<u8>::empty());
        assert(v_plane_of(bgra@.skip(8 * (width * half_h)), width as nat) == Seq::<u8>::empty());
        assert(u@ =~= u_plane_of(bgra@, width as nat));
        assert(v@ =~= v_plane_of(bgra@, width as nat));
    }
    (u, v)
}

/// Copies the first `n` bytes of a buffer.
#[verifier::loop_isolation(false)]
fn prefix_bytes(v: &Vec<u8>, n: usize) -> (r: Vec<u8>)
    requires
        n <= v@.len(),
    ensures
        r@ == v@.take(n as int),
{
    let mut r: Vec<u8> = Vec::new();
    let mut i: usize = 0;
    while i < n
        invariant
            i <= n <= v@.len(),
            r@ == v@.subrange(0, i as int),
        decreases n - i,
    {
        r.push(v[i]);
        proof {
            assert(r@ =~= v@.subrange(0, i + 1));
        }
        i = i + 1;
    }
    proof {
        assert(v@.subrange(0, n as int) =~= v@.take(n as int));
    }
    r
}

/// Converts an interleaved blue-green-red-alpha buffer to the planar
/// luma/chroma layout the encoder consumes, subsampling chroma two-to-one
/// in both directions. Dimensions must be even, as the encoder demands.
/// Only the first four bytes per pixel are read: a pitch-padded readback
/// longer than the image converts the same as its exact prefix.
pub fn bgra_to_i420(bgra: &Vec<u8>, width: usize, height: usize) -> (r: Vec<u8>)
    requires
        width % 2 == 0,
        height % 2 == 0,
        bgra@.len() >= 4 * width * height,
    ensures
        r@ == i420_of(bgra@.take((4 * width * height) as int), width as nat),
        r@.len() == width * height + 2 * ((width / 2) * (height / 2)),
{
    let n = bgra.len();
    proof {
        assert(n == bgra@.len());
        assert(width * height <= 4 * width * height && 4 * (width * height) == 4 * width
            * height) by (nonlinear_arith);
    }
    let npix = width * height;
    let byte_len = 4 * npix;
    let pre = prefix_bytes(bgra, byte_len);
    proof {
        assert(pre@ == bgra@.take((4 * width * height) as int));
        lemma_y_plane_len(pre@);
        lemma_chroma_plane_len(pre@, width as nat, height as nat);
        assert(pre@.len() / 4 == width * height) by (nonlinear_arith)
            requires
                pre@.len() == 4 * width * height,
        ;
    }
    let mut out = luma_plane(&pre);
    let (mut u, mut v) = chroma_planes(&pre, width, height);
    out.append(&mut u);
    out.append(&mut v);
    out
}

/// One raw frame waiting for the encoder: converted pixels and the capture
/// index the callback stamped on it.
pub struct QueuedFrame {
    pub bytes: Vec<u8>,
    pub index: u64,
}

/// The bounded FIFO queue between the capture callback and the encoder
/// worker. When it is full the producer drops the frame instead of
/// blocking: latency over completeness, as a live preview wants.
pub struct FrameQueue {
    frames: Vec<QueuedFrame>,
    capacity: usize,
}

/// Whether the queue is consistent with the callback's counter: entries
/// carry strictly increasing capture indices, all below the next index the
/// counter will hand out.
pub open spec fn queue_wf(q: FrameQueue, counter: u64) -> bool {
    &&& forall|i: int, j: int|
        0 <= i < j < q.entries().len() ==> (#[trigger] q.entries()[i].index) < (
        #[trigger] q.entries()[j].index)
    &&& forall|i: int| 0 <= i < q.entries().len() ==> (#[trigger] q.entries()[i].index) < counter
}

impl FrameQueue {
    /// The queued frames, oldest first.
    pub closed spec fn entries(&self) -> Seq<QueuedFrame> {
        self.frames@
    }

    /// How many frames the queue holds at most.
    pub closed spec fn cap(&self) -> nat {
        self.capacity as nat
    }

    /// An empty queue that holds at most `capacity` frames.
    pub fn new(capacity: usize) -> (q: FrameQueue)
        ensures
            q.entries() == Seq::<QueuedFrame>::empty(),
            q.cap() == capacity,
    {
        FrameQueue { frames: Vec::new(), capacity }
    }

    /// How many frames wait right now.
    pub fn len(&self) -> (n: usize)
        ensures
            n == self.entries().len(),
    {
        self.frames.len()
    }

    /// Offers one frame without blocking: accepted only while there is
    /// room, dropped otherwise.
    pub fn try_send(&mut self, frame: QueuedFrame) -> (accepted: bool)
        ensures
            final(self).cap() == old(self).cap(),
            accepted == (old(self).entries().len() < old(self).cap()),
            accepted ==> final(self).entries() == old(self).entries().push(frame),
            !accepted ==> final(self).entries() == old(self).entries(),
    {
        if self.frames.len() < self.capacity {
            self.frames.push(frame);
            true
        } else {
            false
        }
    }

    /// Takes the oldest frame, if any: the queue is strictly first-in,
    /// first-out, as the encoder's inter-frame state demands.
    pub fn pop_front(&mut self) -> (r: Option<QueuedFrame>)
        ensures
            final(self).cap() == old(self).cap(),
            old(self).entries().len() == 0 ==> r is None && final(self).entries() == old(
                self,
            ).entries(),
            old(self).entries().len() > 0 ==> (r matches Some(f) && f == old(self).entries()[0]
                && final(self).entries() == old(self).entries().subrange(
                1,
                old(self).entries().len() as int,
            )),
    {
        if self.frames.len() == 0 {
            None
        } else {
            let f = self.frames.remove(0);
            proof {
                assert(self.frames@ =~= old(self).frames@.subrange(
                    1,
                    old(self).frames@.len() as int,
                ));
            }
            Some(f)
        }
    }
}

/// Law: the bounded queue hands frames over in capture order. In a queue
/// consistent with the callback's counter the oldest entry carries the
/// lowest capture index, so draining it front-first — as the encoder
/// worker does — sees frame indices strictly increase, which the encoder's
/// inter-frame state and the track feed demand.
pub proof fn lemma_queue_fifo(q: FrameQueue, counter: u64)
    requires
        queue_wf(q, counter),
        q.entries().len() > 0,
    ensures
        forall|j: int|
            1 <= j < q.entries().len() ==> q.entries()[0].index < (
            #[trigger] q.entries()[j].index),
{
}

/// What a run of capture deliveries leaves in the queue, given the counter
/// value the run starts from: each successful readback, stamped with the
/// counter value of its delivery, in delivery order. Faulted deliveries
/// leave nothing behind.
pub open spec fn delivered_spec(outcomes: Seq<Option<Vec<u8>>>, start: int) -> Seq<QueuedFrame>
    decreases outcomes.len(),
{
    if outcomes.len() == 0 {
        Seq::empty()
    } else {
        let rest = delivered_spec(outcomes.drop_last(), start);
        match outcomes.last() {
            Some(bytes) => rest.push(
                QueuedFrame { bytes, index: (start + outcomes.len() - 1) as u64 },
            ),
            None => rest,
        }
    }
}

/// How many deliveries of a run succeeded.
pub open spec fn count_captured(outcomes: Seq<Option<Vec<u8>>>) -> nat
    decreases outcomes.len(),
{
    if outcomes.len() == 0 {
        0
    } else {
        count_captured(outcomes.drop_last()) + if outcomes.last() is Some {
            1nat
        } else {
            0nat
        }
    }
}

/// The capture-callback adapter, one delivery at a time. `outcome` is what
/// the handler got out of the delivered frame: the converted pixels, or
/// nothing because a step failed or the handler faulted. A fault is
/// swallowed — the frame is dropped and the callback returns normally — and
/// a frame that finds the queue full is dropped rather than blocking the
/// capture thread. The counter advances on every delivery.
pub fn handle_frame_delivery(
    queue: &mut FrameQueue,
    counter: &mut u64,
    outcome: Option<Vec<u8>>,
) -> (delivered: bool)
    requires
        queue_wf(*old(queue), *old(counter)),
        *old(counter) < u64::MAX,
    ensures
        queue_wf(*final(queue), *final(counter)),
        *final(counter) == *old(counter) + 1,
        final(queue).cap() == old(queue).cap(),
        outcome is None ==> !delivered && final(queue).entries() == old(queue).entries(),
        outcome matches Some(bytes) ==> ({
            &&& old(queue).entries().len() < old(queue).cap() ==> delivered
                && final(queue).entries()
                == old(queue).entries().push((QueuedFrame { bytes, index: *old(counter) }))
            &&& old(queue).entries().len() >= old(queue).cap() ==> !delivered
                && final(queue).entries() == old(queue).entries()
        }),
{
    let index = *counter;
    *counter = *counter + 1;
    match outcome {
        Some(bytes) => queue.try_send(QueuedFrame { bytes, index }),
        None => false,
    }
}

/// Drives a whole run of capture deliveries through the adapter. So long
/// as the queue has room for every successful readback, the run delivers
/// exactly the non-faulting frames, in capture order: a handler that
/// faults on some deliveries cannot disturb the frames around them.
#[verifier::loop_isolation(false)]
pub fn deliver_frames(queue: &mut FrameQueue, counter: &mut u64, outcomes: Vec<Option<Vec<u8>>>)
    requires
        queue_wf(*old(queue), *old(counter)),
        *old(counter) + outcomes@.len() <= u64::MAX,
        old(queue).entries().len() + count_captured(outcomes@) <= old(queue).cap(),
    ensures
        queue_wf(*final(queue), *final(counter)),
        *final(counter) == *old(counter) + outcomes@.len(),
        final(queue).entries() == old(queue).entries() + delivered_spec(
            outcomes@,
            *old(counter) as int,
        ),
{
    let ghost all = outcomes@;
    let ghost start = *old(counter) as int;
    let mut outcomes = outcomes;
    let total = outcomes.len();
    let mut k: usize = 0;
    proof {
        assert(delivered_spec(all.take(0), start) == Seq::<QueuedFrame>::empty());
        assert(old(queue).entries() + Seq::<QueuedFrame>::empty() =~= old(queue).entries());
        assert(all.take(0) =~= Seq::<Option<Vec<u8>>>::empty());
        assert(count_captured(all.take(0)) == 0);
        assert(all.subrange(0, all.len() as int) =~= all);
    }
    while k < total
        invariant
            k <= total,
            total == all.len(),
            outcomes@ == all.subrange(k as int, all.len() as int),
            *counter == start + k,
            queue_wf(*queue, *counter),
            queue.cap() == old(queue).cap(),
            queue.entries() == old(queue).entries() + delivered_spec(all.take(k as int), start),
            queue.entries().len() == old(queue).entries().len() + count_captured(
                all.take(k as int),
            ),
            count_captured(all.take(k as int)) + count_captured(
                all.subrange(k as int, all.len() as int),
            ) == count_captured(all),
        decreases total - k,
    {
        let outcome = outcomes.remove(0);
        proof {
            assert(outcome == all[k as int]);
            assert(outcomes@ =~= all.subrange(k + 1, all.len() as int));
            assert(all.take(k + 1).drop_last() =~= all.take(k as int));
            assert(all.take(k + 1).last() == all[k as int]);
            let tail = all.subrange(k as int, all.len() as int);
            assert(tail.drop_last() =~= all.subrange(k as int, all.len() - 1));
            lemma_count_captured_step(all, k as int);
        }
        handle_frame_delivery(queue, counter, outcome);
        proof {
            assert(queue.entries() =~= old(queue).entries() + delivered_spec(
                all.take(k + 1),
                start,
            ));
        }
        k = k + 1;
    }
    proof {
        assert(all.take(total as int) =~= all);
    }
}

/// Splitting a run at any point splits its success count.
proof fn lemma_count_captured_step(all: Seq<Option<Vec<u8>>>, k: int)
    requires
        0 <= k < all.len(),
    ensures
        count_captured(all.subrange(k, all.len() as int)) == count_captured(
            all.subrange(k + 1, all.len() as int),
        ) + if all[k] is Some {
            1nat
        } else {
            0nat
        },
    decreases all.len() - k,
{
    let tail = all.subrange(k, all.len() as int);
    if k == all.len() - 1 {
        assert(tail.len() == 1);
        assert(tail.drop_last() =~= Seq::<Option<Vec<u8>>>::empty());
        assert(tail.last() == all[k]);
        assert(all.subrange(k + 1, all.len() as int) =~= Seq::<Option<Vec<u8>>>::empty());
    } else {
        lemma_count_captured_step(all.drop_last(), k);
        assert(all.drop_last().subrange(k, all.drop_last().len() as int) =~= all.subrange(
            k,
            all.len() - 1,
        ));
        assert(all.drop_last().subrange(k + 1, all.drop_last().len() as int) =~= all.subrange(
            k + 1,
            all.len() - 1,
        ));
        assert(all.drop_last()[k] == all[k]);
        assert(tail.drop_last() =~= all.subrange(k, all.len() - 1));
        assert(tail.last() == all.last());
        let tail2 = all.subrange(k + 1, all.len() as int);
        assert(tail2.drop_last() =~= all.subrange(k + 1, all.len() - 1));
        assert(tail2.last() == all.last());
    }
}

/// One encoded packet on its way to the transport track.
pub struct EncodedPacket {
    pub bytes: Vec<u8>,
    pub is_keyframe: bool,
    pub frame_index: u64,
}

/// Whether a packet feed is in non-decreasing frame-index order.
pub open spec fn packets_ordered(s: Seq<EncodedPacket>) -> bool {
    forall|i: int, j: int|
        0 <= i <= j < s.len() ==> (#[trigger] s[i].frame_index) <= (#[trigger] s[j].frame_index)
}

/// The packets one encoded frame contributes, tagged with its frame index.
pub open spec fn tagged_packets(chunks: Seq<(Vec<u8>, bool)>, index: u64) -> Seq<EncodedPacket> {
    Seq::new(
        chunks.len(),
        |i: int|
            EncodedPacket { bytes: chunks[i].0, is_keyframe: chunks[i].1, frame_index: index },
    )
}

/// The feed of encoded packets onto one stream's track. Packets arrive in
/// non-decreasing frame-index order, always: the channel and the encoder
/// loop preserve the capture order, and this type refuses anything else.
pub struct TrackFeed {
    /// Every packet forwarded so far, in forwarding order.
    pub packets: Vec<EncodedPacket>,
    /// The highest frame index forwarded so far.
    pub high: u64,
}

impl TrackFeed {
    /// The feed's invariant: the packets are ordered and none exceeds the
    /// high-water mark.
    pub open spec fn wf(&self) -> bool {
        &&& packets_ordered(self.packets@)
        &&& forall|i: int|
            0 <= i < self.packets@.len() ==> (#[trigger] self.packets@[i].frame_index)
                <= self.high
    }

    /// A feed that has carried nothing yet.
    pub fn new() -> (t: TrackFeed)
        ensures
            t.wf(),
            t.packets@ == Seq::<EncodedPacket>::empty(),
            t.high == 0,
    {
        TrackFeed { packets: Vec::new(), high: 0 }
    }

    /// Forwards the encoder's output for one frame: each chunk becomes a
    /// packet tagged with the frame's index. Frames reach the feed in
    /// non-decreasing index order, so the feed stays ordered.
    #[verifier::loop_isolation(false)]
    pub fn forward_packets(&mut self, frame_index: u64, chunks: Vec<(Vec<u8>, bool)>)
        requires
            old(self).wf(),
            frame_index >= old(self).high,
        ensures
            final(self).wf(),
            final(self).packets@ == old(self).packets@ + tagged_packets(chunks@, frame_index),
            final(self).high == if old(self).packets@.len() == 0 && chunks@.len() == 0 {
                old(self).high
            } else {
                frame_index as u64
            },
    {
        let ghost all = chunks@;
        let mut chunks = chunks;
        let total = chunks.len();
        let mut k: usize = 0;
        proof {
            assert(old(self).packets@ + tagged_packets(all, frame_index).take(0) =~= old(
                self,
            ).packets@);
        }
        while k < total
            invariant
                k <= total,
                total == all.len(),
                chunks@ == all.subrange(k as int, all.len() as int),
                self.packets@ == old(self).packets@ + tagged_packets(all, frame_index).take(
                    k as int,
                ),
                self.high == old(self).high,
            decreases total - k,
        {
            let (bytes, is_keyframe) = chunks.remove(0);
            proof {
                assert(all[k as int] == (bytes, is_keyframe));
                assert(chunks@ =~= all.subrange(k + 1, all.len() as int));
            }
            self.packets.push(EncodedPacket { bytes, is_keyframe, frame_index });
            proof {
                assert(self.packets@ =~= old(self).packets@ + tagged_packets(
                    all,
                    frame_index,
                ).take(k + 1));
            }
            k = k + 1;
        }
        proof {
            assert(tagged_packets(all, frame_index).take(total as int) =~= tagged_packets(
                all,
                frame_index,
            ));
        }
        if total > 0 || self.packets.len() > 0 {
            self.high = frame_index;
        }
        proof {
            assert(final(self).wf());
        }
    }
}

} // verus!

