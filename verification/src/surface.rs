use std::marker::PhantomData;
use std::ops::Range;
use vstd::prelude::*;

use crate::pixel::Pixel;

verus! {

// ---------------------------------------------------------------------------
// Arithmetic facts about pixel offsets
// ---------------------------------------------------------------------------

/// The index of pixel `(x, y)` in row-major order.
pub open spec fn pixel_index(width: nat, x: int, y: int) -> int {
    y * width + x
}

/// The channels of pixel number `k` of a raw buffer.
pub open spec fn chunk<S>(raw: Seq<S>, ch: nat, k: int) -> Seq<S> {
    raw.subrange(k * ch, k * ch + ch)
}

/// A raw buffer after the entries from `start` on have been replaced by `chans`.
pub open spec fn overwrite<S>(raw: Seq<S>, start: int, chans: Seq<S>) -> Seq<S> {
    Seq::new(
        raw.len(),
        |j: int|
            if start <= j < start + chans.len() {
                chans[j - start]
            } else {
                raw[j]
            },
    )
}

/// A raw buffer after the channels of pixel number `k` have been replaced by `chans`.
pub open spec fn write_chunk<S>(raw: Seq<S>, ch: nat, k: int, chans: Seq<S>) -> Seq<S> {
    overwrite(raw, k * ch, chans)
}

proof fn lemma_chunk_end(k: int, n: int, ch: int)
    by (nonlinear_arith)
    requires
        0 <= k < n,
        ch > 0,
    ensures
        0 <= k * ch,
        k * ch + ch <= n * ch,
{
}

proof fn lemma_chunks_apart(k1: int, k2: int, ch: int)
    by (nonlinear_arith)
    requires
        0 <= k1 < k2,
        ch > 0,
    ensures
        k1 * ch + ch <= k2 * ch,
{
}

proof fn lemma_index_in_image(x: int, y: int, w: int, h: int)
    by (nonlinear_arith)
    requires
        0 <= x < w,
        0 <= y < h,
    ensures
        0 <= y * w + x < w * h,
{
}

proof fn lemma_len_assoc(ch: int, w: int, h: int)
    by (nonlinear_arith)
    ensures
        ch * w * h == (w * h) * ch,
        ch * w * h == h * (ch * w),
{
}

proof fn lemma_index_unique(x1: int, y1: int, x2: int, y2: int, w: int)
    by (nonlinear_arith)
    requires
        0 <= x1 < w,
        0 <= x2 < w,
        0 <= y1,
        0 <= y2,
        y1 * w + x1 == y2 * w + x2,
    ensures
        x1 == x2,
        y1 == y2,
{
    if y1 < y2 {
        assert(y1 * w + w <= y2 * w);
    } else if y2 < y1 {
        assert(y2 * w + w <= y1 * w);
    }
}

/// Writing chunk `k` sets that chunk to `chans` and leaves every other chunk alone.
proof fn lemma_write_chunk<S>(raw: Seq<S>, ch: nat, k: int, chans: Seq<S>, k2: int)
    requires
        ch > 0,
        0 <= k,
        0 <= k2,
        k * ch + ch <= raw.len(),
        k2 * ch + ch <= raw.len(),
        chans.len() == ch,
    ensures
        write_chunk(raw, ch, k, chans).len() == raw.len(),
        chunk(write_chunk(raw, ch, k, chans), ch, k2) == if k2 == k {
            chans
        } else {
            chunk(raw, ch, k2)
        },
{
    let w = write_chunk(raw, ch, k, chans);
    if k2 == k {
        assert(chunk(w, ch, k2) =~= chans);
    } else {
        if k < k2 {
            lemma_chunks_apart(k, k2, ch as int);
        } else {
            lemma_chunks_apart(k2, k, ch as int);
        }
        assert(chunk(w, ch, k2) =~= chunk(raw, ch, k2));
    }
}

// ---------------------------------------------------------------------------
// Iterators over the pixels of a buffer
// ---------------------------------------------------------------------------

/// The pixels of a run of channels, front to back.
pub struct Pixels<'a, P: Pixel> {
    data: &'a [P::Subpixel],
    front: usize,
    back: usize,
    ch: usize,
    _phantom: PhantomData<P>,
}

impl<'a, P: Pixel> Pixels<'a, P> {
    /// The pixels still to come, in order.
    pub closed spec fn remaining(&self) -> Seq<P> {
        Seq::new(
            (self.back - self.front) as nat,
            |i: int| P::spec_from_channels(chunk(self.data@, self.ch as nat, self.front + i)),
        )
    }

    pub closed spec fn wf(&self) -> bool {
        &&& self.ch == P::spec_channel_count()
        &&& self.ch > 0
        &&& self.front <= self.back
        &&& self.back * self.ch <= self.data@.len()
        &&& self.data@.len() <= usize::MAX
    }

    /// The pixels of all whole chunks of `data`.
    fn over(data: &'a [P::Subpixel]) -> (it: Self)
        requires
            data@.len() % P::spec_channel_count() == 0,
        ensures
            it.wf(),
            it.taken() == 0,
            it.remaining().len() == data@.len() / P::spec_channel_count(),
            forall|k: int|
                0 <= k < it.remaining().len() ==> #[trigger] it.remaining()[k]
                    == P::spec_from_channels(chunk(data@, P::spec_channel_count(), k)),
    {
        let ch = P::channel_count();
        let n = data.len() / ch;
        proof {
            let l = data@.len() as int;
            let c = ch as int;
            vstd::arithmetic::div_mod::lemma_fundamental_div_mod(l, c);
            assert(n * c == l) by (nonlinear_arith)
                requires
                    l == c * (l / c) + l % c,
                    l % c == 0,
                    n == l / c,
            ;
        }
        Pixels { data, front: 0, back: n, ch, _phantom: PhantomData }
    }

    pub fn next(&mut self) -> (r: Option<P>)
        requires
            old(self).wf(),
        ensures
            final(self).wf(),
            old(self).remaining().len() == 0 ==> r is None && final(self).remaining()
                == old(self).remaining(),
            old(self).remaining().len() > 0 ==> r == Some(old(self).remaining()[0])
                && final(self).remaining() == old(self).remaining().drop_first(),
            final(self).taken() == if old(self).remaining().len() > 0 {
                old(self).taken() + 1
            } else {
                old(self).taken()
            },
    {
        if self.front < self.back {
            let k = self.front;
            proof {
                lemma_chunk_end(k as int, self.back as int, self.ch as int);
            }
            let start = k * self.ch;
            let p = P::from_slice(&self.data[start..start + self.ch]);
            self.front = self.front + 1;
            proof {
                assert(self.remaining() =~= old(self).remaining().drop_first());
            }
            Some(p)
        } else {
            None
        }
    }

    pub fn next_back(&mut self) -> (r: Option<P>)
        requires
            old(self).wf(),
        ensures
            final(self).wf(),
            old(self).remaining().len() == 0 ==> r is None && final(self).remaining()
                == old(self).remaining(),
            old(self).remaining().len() > 0 ==> r == Some(old(self).remaining().last())
                && final(self).remaining() == old(self).remaining().drop_last(),
            final(self).taken() == old(self).taken(),
    {
        if self.front < self.back {
            let k = self.back - 1;
            proof {
                lemma_chunk_end(k as int, self.back as int, self.ch as int);
            }
            let start = k * self.ch;
            let p = P::from_slice(&self.data[start..start + self.ch]);
            self.back = k;
            proof {
                assert(self.remaining() =~= old(self).remaining().drop_last());
            }
            Some(p)
        } else {
            None
        }
    }

    pub fn len(&self) -> (n: usize)
        requires
            self.wf(),
        ensures
            n == self.remaining().len(),
    {
        self.back - self.front
    }
}


/// The rows of a run of channels, each row read as pixels.
pub struct Rows<'a, P: Pixel> {
    data: &'a [P::Subpixel],
    width: usize,
    ch: usize,
    front: usize,
    back: usize,
    _phantom: PhantomData<P>,
}

proof fn lemma_row_chunk(r: int, width: int, ch: int, k: int)
    by (nonlinear_arith)
    requires
        0 <= r,
        0 <= k < width,
        ch > 0,
    ensures
        r * (ch * width) + k * ch == (r * width + k) * ch,
        0 <= k * ch,
        k * ch + ch <= ch * width,
        0 <= r * (ch * width),
{
}

impl<'a, P: Pixel> Rows<'a, P> {
    /// The number of pixels in a row.
    pub closed spec fn row_width(&self) -> nat {
        self.width as nat
    }

    /// The rows still to come, each as its pixels.
    pub closed spec fn remaining_rows(&self) -> Seq<Seq<P>> {
        rows_of::<P>(self.data@, self.width as nat, self.front as int, (self.back - self.front) as nat)
    }

    pub closed spec fn wf(&self) -> bool {
        &&& self.ch == P::spec_channel_count()
        &&& self.ch > 0
        &&& self.width > 0
        &&& self.ch * self.width <= usize::MAX
        &&& self.front <= self.back
        &&& self.back * (self.ch * self.width) <= self.data@.len()
        &&& self.data@.len() <= usize::MAX
    }

    /// The rows of `data`, which holds whole rows of `width` pixels.
    fn over(data: &'a [P::Subpixel], width: usize) -> (it: Self)
        requires
            width > 0,
            P::spec_channel_count() * width <= usize::MAX,
            data@.len() % (P::spec_channel_count() * width) as nat == 0,
        ensures
            it.wf(),
            it.row_width() == width,
            it.remaining_rows() == rows_of::<P>(
                data@,
                width as nat,
                0,
                data@.len() / (P::spec_channel_count() * width) as nat,
            ),
    {
        let ch = P::channel_count();
        proof {
            assert(ch * width > 0) by (nonlinear_arith)
                requires
                    ch > 0,
                    width > 0,
            ;
        }
        let row_len = ch * width;
        let n = data.len() / row_len;
        proof {
            let l = data@.len() as int;
            let c = row_len as int;
            vstd::arithmetic::div_mod::lemma_fundamental_div_mod(l, c);
            assert(n * c == l) by (nonlinear_arith)
                requires
                    l == c * (l / c) + l % c,
                    l % c == 0,
                    n == l / c,
            ;
        }
        Rows { data, width, ch, front: 0, back: n, _phantom: PhantomData }
    }

    /// The pixels of row number `r`.
    fn row(&self, r: usize) -> (px: Pixels<'a, P>)
        requires
            self.wf(),
            r < self.back,
        ensures
            px.wf(),
            px.remaining() == rows_of::<P>(self.data@, self.width as nat, r as int, 1)[0],
    {
        let row_len = self.ch * self.width;
        proof {
            assert(row_len > 0) by (nonlinear_arith)
                requires
                    self.ch > 0,
                    self.width > 0,
                    row_len == self.ch * self.width,
            ;
            lemma_chunk_end(r as int, self.back as int, row_len as int);
            vstd::arithmetic::div_mod::lemma_mod_multiples_basic(self.width as int, self.ch as int);
            vstd::arithmetic::div_mod::lemma_div_multiples_vanish(self.width as int, self.ch as int);
            assert(self.width * self.ch == self.ch * self.width) by (nonlinear_arith);
        }
        let start = r * row_len;
        let sub = &self.data[start..start + row_len];
        let px = Pixels::over(sub);
        proof {
            let want = rows_of::<P>(self.data@, self.width as nat, r as int, 1)[0];
            assert forall|k: int| 0 <= k < self.width implies #[trigger] px.remaining()[k]
                == want[k] by {
                lemma_row_chunk(r as int, self.width as int, self.ch as int, k);
                assert(chunk(sub@, self.ch as nat, k) =~= chunk(
                    self.data@,
                    self.ch as nat,
                    r * self.width + k,
                ));
            }
            assert(px.remaining() =~= want);
        }
        px
    }

    pub fn next(&mut self) -> (r: Option<Pixels<'a, P>>)
        requires
            old(self).wf(),
        ensures
            final(self).wf(),
            final(self).row_width() == old(self).row_width(),
            old(self).remaining_rows().len() == 0 ==> r is None && final(self).remaining_rows()
                == old(self).remaining_rows(),
            old(self).remaining_rows().len() > 0 ==> (r matches Some(px) && px.wf()
                && px.remaining() == old(self).remaining_rows()[0] && final(self).remaining_rows()
                == old(self).remaining_rows().drop_first()),
    {
        if self.front < self.back {
            let px = self.row(self.front);
            self.front = self.front + 1;
            proof {
                assert(self.remaining_rows() =~= old(self).remaining_rows().drop_first());
                assert(px.remaining() =~= old(self).remaining_rows()[0]);
            }
            Some(px)
        } else {
            None
        }
    }

    pub fn next_back(&mut self) -> (r: Option<Pixels<'a, P>>)
        requires
            old(self).wf(),
        ensures
            final(self).wf(),
            final(self).row_width() == old(self).row_width(),
            old(self).remaining_rows().len() == 0 ==> r is None && final(self).remaining_rows()
                == old(self).remaining_rows(),
            old(self).remaining_rows().len() > 0 ==> (r matches Some(px) && px.wf()
                && px.remaining() == old(self).remaining_rows().last()
                && final(self).remaining_rows() == old(self).remaining_rows().drop_last()),
    {
        if self.front < self.back {
            let px = self.row(self.back - 1);
            proof {
                let rl = self.ch * self.width;
                assert((self.back - 1) * rl <= self.back * rl) by (nonlinear_arith)
                    requires
                        self.back >= 1,
                        rl >= 0,
                ;
            }
            self.back = self.back - 1;
            proof {
                assert(self.remaining_rows() =~= old(self).remaining_rows().drop_last());
                assert(px.remaining() =~= old(self).remaining_rows().last());
            }
            Some(px)
        } else {
            None
        }
    }

    pub fn len(&self) -> (n: usize)
        requires
            self.wf(),
        ensures
            n == self.remaining_rows().len(),
    {
        self.back - self.front
    }
}

/// The pixels of an image together with their coordinates, row by row.
pub struct EnumeratePixels<'a, P: Pixel> {
    pixels: Pixels<'a, P>,
    x: usize,
    y: usize,
    width: usize,
}

impl<'a, P: Pixel> Pixels<'a, P> {
    /// How many pixels have been taken from the front.
    pub closed spec fn taken(&self) -> nat {
        self.front as nat
    }
}

impl<'a, P: Pixel> EnumeratePixels<'a, P> {
    /// The number of pixels in a row.
    pub closed spec fn row_width(&self) -> nat {
        self.width as nat
    }

    /// The index of the next pixel, counted from the start of the image.
    pub closed spec fn position(&self) -> nat {
        self.pixels.taken()
    }

    /// The row that the next call starts from.
    pub closed spec fn row(&self) -> nat {
        self.y as nat
    }

    /// The pixels still to come.
    pub closed spec fn remaining(&self) -> Seq<P> {
        self.pixels.remaining()
    }

    pub closed spec fn wf(&self) -> bool {
        &&& self.pixels.wf()
        &&& self.width > 0 ==> {
            &&& self.x <= self.width
            &&& (self.y * self.width + self.x == self.pixels.front || self.pixels.front
                == self.pixels.back)
        }
    }

    /// Whether the next call can move its column and row counters without overflow:
    /// always while pixels remain in an image of nonzero width.
    pub open spec fn can_advance(&self) -> bool {
        (self.row_width() > 0 && self.remaining().len() > 0) || self.row() < usize::MAX
    }

    pub fn next(&mut self) -> (r: Option<(usize, usize, P)>)
        requires
            old(self).wf(),
            old(self).can_advance(),
        ensures
            final(self).wf(),
            final(self).row_width() == old(self).row_width(),
            old(self).remaining().len() == 0 ==> r is None && final(self).remaining()
                == old(self).remaining(),
            old(self).remaining().len() > 0 ==> {
                &&& r matches Some((x, y, p))
                &&& p == old(self).remaining()[0]
                &&& old(self).row_width() > 0 ==> x < old(self).row_width() && pixel_index(
                    old(self).row_width(),
                    x as int,
                    y as int,
                ) == old(self).position()
                &&& final(self).remaining() == old(self).remaining().drop_first()
                &&& final(self).position() == old(self).position() + 1
            },
    {
        let ghost live = self.width > 0 && self.pixels.front < self.pixels.back;
        if self.x >= self.width {
            let ghost y0 = self.y as int;
            let ghost x0 = self.x as int;
            proof {
                if live {
                    assert(x0 == self.width);
                    assert(y0 * self.width + self.width == self.pixels.front);
                    assert(y0 + 1 <= usize::MAX) by (nonlinear_arith)
                        requires
                            y0 * self.width + self.width <= usize::MAX,
                            self.width > 0,
                    ;
                }
            }
            self.x = 0;
            self.y = self.y + 1;
            proof {
                let w = self.width as int;
                assert(self.y * w + self.x == y0 * w + w) by (nonlinear_arith)
                    requires
                        self.y == y0 + 1,
                        self.x == 0,
                ;
            }
        }
        assert(live ==> self.y * self.width + self.x == self.pixels.front);
        assert(live ==> self.x < self.width);
        let x = self.x;
        let y = self.y;
        self.x = self.x + 1;
        let r = self.pixels.next();
        match r {
            Some(p) => Some((x, y, p)),
            None => None,
        }
    }

    pub fn len(&self) -> (n: usize)
        requires
            self.wf(),
        ensures
            n == self.remaining().len(),
    {
        self.pixels.len()
    }
}

// ---------------------------------------------------------------------------
// Iterators that hand out pixels to be written
// ---------------------------------------------------------------------------

/// A run of whole pixels after its first `n` channels are taken away is still whole,
/// and there were at least `n` of them.
proof fn lemma_whole_after_taking(len: int, n: int)
    requires
        n > 0,
        len > 0,
        len % n == 0,
    ensures
        n <= len,
        (len - n) % n == 0,
{
    vstd::arithmetic::div_mod::lemma_fundamental_div_mod(len, n);
    let q = len / n;
    assert(q >= 1 && len == q * n) by (nonlinear_arith)
        requires
            len == n * q + len % n,
            len % n == 0,
            len > 0,
            n > 0,
    ;
    vstd::arithmetic::div_mod::lemma_mod_multiples_basic(q - 1, n);
    assert((q - 1) * n == len - n) by (nonlinear_arith)
        requires
            len == q * n,
    ;
}

/// Chunk `k` of a run after its first chunk is dropped is chunk `k + 1` of the run.
proof fn lemma_chunk_after_first<S>(raw: Seq<S>, ch: nat, k: int)
    requires
        ch > 0,
        0 <= k,
        (k + 1) * ch + ch <= raw.len(),
    ensures
        chunk(raw.skip(ch as int), ch, k) == chunk(raw, ch, k + 1),
{
    assert((k + 1) * ch == k * ch + ch) by (nonlinear_arith);
    assert(chunk(raw.skip(ch as int), ch, k) =~= chunk(raw, ch, k + 1));
}

/// Writes the channels of `p` into `channels`, the channels of one pixel.
pub fn write_pixel<P: Pixel>(channels: &mut [P::Subpixel], p: P)
    requires
        old(channels)@.len() == P::spec_channel_count(),
    ensures
        final(channels)@ == p.spec_channels(),
        P::spec_from_channels(final(channels)@) == p,
{
    let ch = P::channel_count();
    proof {
        P::lemma_channels_round_trip(p);
    }
    let mut i: usize = 0;
    while i < ch
        invariant
            0 <= i <= ch,
            ch == P::spec_channel_count(),
            channels@.len() == ch,
            p.spec_channels().len() == ch,
            forall|j: int| 0 <= j < i ==> #[trigger] channels@[j] == p.spec_channels()[j],
        decreases ch - i,
    {
        let c = p.channel(i);
        channels[i] = c;
        i = i + 1;
    }
    proof {
        assert(channels@ =~= p.spec_channels());
    }
}

/// The pixels of a run of channels, front to back, each handed out as its own channels:
/// what is written into them ends up in the run.
pub struct PixelsMut<'a, P: Pixel> {
    /// The channels of the pixels still to come.
    pub rest: &'a mut [P::Subpixel],
    pub _phantom: PhantomData<P>,
}

impl<'a, P: Pixel> PixelsMut<'a, P> {
    pub open spec fn wf(&self) -> bool {
        self.rest@.len() % P::spec_channel_count() == 0
    }

    /// The pixels still to come, in order.
    pub open spec fn remaining(&self) -> Seq<P> {
        Seq::new(
            self.rest@.len() / P::spec_channel_count(),
            |k: int| P::spec_from_channels(chunk(self.rest@, P::spec_channel_count(), k)),
        )
    }

    /// The next pixel's channels: the first channels of the run, which leave it; what
    /// the run ends up holding is what they end up holding followed by the rest.
    pub fn next(&mut self) -> (r: Option<&'a mut [P::Subpixel]>)
        requires
            old(self).wf(),
        ensures
            final(self).wf(),
            old(self).rest@.len() == 0 ==> r is None && final(self).rest@ == old(self).rest@
                && final(final(self).rest)@ == final(old(self).rest)@,
            old(self).rest@.len() > 0 ==> (r matches Some(c)
                && c@ == old(self).rest@.take(P::spec_channel_count() as int)
                && P::spec_from_channels(c@) == old(self).remaining()[0]
                && final(self).rest@ == old(self).rest@.skip(P::spec_channel_count() as int)
                && final(self).remaining() == old(self).remaining().drop_first()
                && final(old(self).rest)@ == final(c)@ + final(final(self).rest)@),
    {
        let ch = P::channel_count();
        if self.rest.len() == 0 {
            None
        } else {
            proof {
                lemma_whole_after_taking(self.rest@.len() as int, ch as int);
            }
            let mut rest: &'a mut [P::Subpixel] = &mut [];
            std::mem::swap(&mut rest, &mut self.rest);
            let (a, b) = rest.split_at_mut(ch);
            self.rest = b;
            proof {
                let old_raw = old(self).rest@;
                vstd::arithmetic::div_mod::lemma_div_is_ordered(
                    (old_raw.len() - ch) as int,
                    old_raw.len() as int,
                    ch as int,
                );
                vstd::arithmetic::div_mod::lemma_fundamental_div_mod(old_raw.len() as int, ch as int);
                vstd::arithmetic::div_mod::lemma_fundamental_div_mod((old_raw.len() - ch) as int, ch as int);
                let n = old_raw.len() / (ch as nat);
                assert(n >= 1 && (old_raw.len() - ch) / (ch as int) == n - 1) by (nonlinear_arith)
                    requires
                        old_raw.len() == ch * n + old_raw.len() % (ch as nat),
                        old_raw.len() % (ch as nat) == 0,
                        (old_raw.len() - ch) == ch * ((old_raw.len() - ch) / (ch as int))
                            + (old_raw.len() - ch) % (ch as int),
                        (old_raw.len() - ch) % (ch as int) == 0,
                        old_raw.len() >= ch,
                        ch > 0,
                ;
                assert forall|k: int| 0 <= k < self.remaining().len() implies #[trigger] self.remaining()[k]
                    == old(self).remaining().drop_first()[k] by {
                    lemma_chunk_end(k + 1, n as int, ch as int);
                    lemma_chunk_after_first(old_raw, ch as nat, k);
                }
                assert(self.remaining() =~= old(self).remaining().drop_first());
                assert(chunk(old_raw, ch as nat, 0) =~= old_raw.take(ch as int));
            }
            Some(a)
        }
    }

    /// The last pixel's channels: the last channels of the run, which leave it; what the
    /// run ends up holding is the rest followed by what they end up holding.
    pub fn next_back(&mut self) -> (r: Option<&'a mut [P::Subpixel]>)
        requires
            old(self).wf(),
        ensures
            final(self).wf(),
            old(self).rest@.len() == 0 ==> r is None && final(self).rest@ == old(self).rest@
                && final(final(self).rest)@ == final(old(self).rest)@,
            old(self).rest@.len() > 0 ==> (r matches Some(c)
                && c@ == old(self).rest@.skip(old(self).rest@.len() - P::spec_channel_count())
                && P::spec_from_channels(c@) == old(self).remaining().last()
                && final(self).rest@ == old(self).rest@.take(old(self).rest@.len() - P::spec_channel_count())
                && final(self).remaining() == old(self).remaining().drop_last()
                && final(old(self).rest)@ == final(final(self).rest)@ + final(c)@),
    {
        let ch = P::channel_count();
        if self.rest.len() == 0 {
            None
        } else {
            proof {
                lemma_whole_after_taking(self.rest@.len() as int, ch as int);
            }
            let mut rest: &'a mut [P::Subpixel] = &mut [];
            std::mem::swap(&mut rest, &mut self.rest);
            let mid = rest.len() - ch;
            let (a, b) = rest.split_at_mut(mid);
            self.rest = a;
            proof {
                let old_raw = old(self).rest@;
                vstd::arithmetic::div_mod::lemma_fundamental_div_mod(old_raw.len() as int, ch as int);
                vstd::arithmetic::div_mod::lemma_fundamental_div_mod(mid as int, ch as int);
                let n = old_raw.len() / (ch as nat);
                assert(n >= 1 && (mid as int) / (ch as int) == n - 1 && (n - 1) * ch == mid)
                    by (nonlinear_arith)
                    requires
                        old_raw.len() == ch * n + old_raw.len() % (ch as nat),
                        old_raw.len() % (ch as nat) == 0,
                        mid == ch * ((mid as int) / (ch as int)) + (mid as int) % (ch as int),
                        (mid as int) % (ch as int) == 0,
                        mid == old_raw.len() - ch,
                        ch > 0,
                ;
                assert forall|k: int| 0 <= k < self.remaining().len() implies #[trigger] self.remaining()[k]
                    == old(self).remaining().drop_last()[k] by {
                    lemma_chunk_end(k, (n - 1) as int, ch as int);
                    assert(chunk(self.rest@, ch as nat, k) =~= chunk(old_raw, ch as nat, k));
                }
                assert(self.remaining() =~= old(self).remaining().drop_last());
                assert(chunk(old_raw, ch as nat, n - 1) =~= old_raw.skip(mid as int));
            }
            Some(b)
        }
    }

    /// How many pixels are still to come.
    pub fn len(&self) -> (n: usize)
        requires
            self.wf(),
        ensures
            n == self.remaining().len(),
    {
        self.rest.len() / P::channel_count()
    }
}

/// Chunk `k` of a run after its first `d` entries are dropped is chunk `k2` of the run,
/// where chunk `k2` starts `d` entries after chunk `k`.
proof fn lemma_chunk_of_skip<S>(raw: Seq<S>, ch: nat, d: int, k: int, k2: int)
    requires
        0 <= d,
        0 <= k,
        k2 * ch == d + k * ch,
        k2 * ch + ch <= raw.len(),
    ensures
        chunk(raw.skip(d), ch, k) == chunk(raw, ch, k2),
{
    assert(chunk(raw.skip(d), ch, k) =~= chunk(raw, ch, k2));
}

proof fn lemma_next_row(i: int, j: int, w: int, ch: int, c: int)
    requires
        0 <= i,
        i + 1 < c,
        0 <= j < w,
        ch > 0,
    ensures
        ((i + 1) * w + j) * ch == (i * w + j) * ch + ch * w,
        ((i + 1) * w + j) * ch + ch <= c * (ch * w),
        0 <= (i * w + j) * ch,
        0 <= i * w + j,
{
    assert((i + 1) * w + j + 1 <= c * w) by (nonlinear_arith)
        requires
            i + 1 < c,
            j < w,
            0 <= j,
            0 <= i,
    ;
    assert(((i + 1) * w + j) * ch + ch == ((i + 1) * w + j + 1) * ch) by (nonlinear_arith);
    assert(((i + 1) * w + j) * ch == (i * w + j) * ch + ch * w) by (nonlinear_arith);
    assert(0 <= i * w + j && 0 <= (i * w + j) * ch) by (nonlinear_arith)
        requires
            0 <= i,
            0 <= j,
            0 <= w,
            ch > 0,
    ;
    assert((c * w) * ch == c * (ch * w)) by (nonlinear_arith);
    assert(((i + 1) * w + j + 1) * ch <= (c * w) * ch) by (nonlinear_arith)
        requires
            (i + 1) * w + j + 1 <= c * w,
            ch > 0,
    ;
}

/// The rows of a run of channels, front to back, each handed out as its pixels to be
/// written: what is written into them ends up in the run.
pub struct RowsMut<'a, P: Pixel> {
    /// The channels of the rows still to come.
    pub rest: &'a mut [P::Subpixel],
    /// The number of pixels in a row.
    pub width: usize,
    pub _phantom: PhantomData<P>,
}

impl<'a, P: Pixel> RowsMut<'a, P> {
    pub open spec fn wf(&self) -> bool {
        &&& self.width > 0
        &&& P::spec_channel_count() * self.width <= usize::MAX
        &&& self.rest@.len() % (P::spec_channel_count() * self.width as nat) == 0
    }

    /// The rows still to come, each as its pixels.
    pub open spec fn remaining_rows(&self) -> Seq<Seq<P>> {
        rows_of::<P>(
            self.rest@,
            self.width as nat,
            0,
            self.rest@.len() / (P::spec_channel_count() * self.width as nat),
        )
    }

    /// The next row: the first row's channels of the run, which leave it; what the run
    /// ends up holding is what the row ends up holding followed by the rest.
    pub fn next(&mut self) -> (r: Option<PixelsMut<'a, P>>)
        requires
            old(self).wf(),
        ensures
            final(self).wf(),
            final(self).width == old(self).width,
            old(self).rest@.len() == 0 ==> r is None && final(self).rest@ == old(self).rest@
                && final(final(self).rest)@ == final(old(self).rest)@,
            old(self).rest@.len() > 0 ==> (r matches Some(row)
                && row.wf()
                && row.rest@ == old(self).rest@.take(P::spec_channel_count() * old(self).width)
                && row.remaining() == old(self).remaining_rows()[0]
                && final(self).rest@ == old(self).rest@.skip(P::spec_channel_count() * old(self).width)
                && final(self).remaining_rows() == old(self).remaining_rows().drop_first()
                && final(old(self).rest)@ == final(row.rest)@ + final(final(self).rest)@),
    {
        let ch = P::channel_count();
        let row_len = ch * self.width;
        assert(row_len > 0) by (nonlinear_arith)
            requires
                row_len == ch * self.width,
                ch > 0,
                self.width > 0,
        ;
        if self.rest.len() == 0 {
            None
        } else {
            proof {
                lemma_whole_after_taking(self.rest@.len() as int, row_len as int);
            }
            let mut rest: &'a mut [P::Subpixel] = &mut [];
            std::mem::swap(&mut rest, &mut self.rest);
            let (a, b) = rest.split_at_mut(row_len);
            self.rest = b;
            let row = PixelsMut { rest: a, _phantom: PhantomData };
            proof {
                let old_raw = old(self).rest@;
                let w = self.width as int;
                let c = ch as int;
                let cw = row_len as int;
                vstd::arithmetic::div_mod::lemma_mod_multiples_basic(w, c);
                vstd::arithmetic::div_mod::lemma_div_multiples_vanish(w, c);
                assert(cw == w * c) by (nonlinear_arith)
                    requires
                        cw == c * w,
                ;
                assert(row.wf());
                assert forall|j: int| 0 <= j < w implies #[trigger] row.remaining()[j]
                    == old(self).remaining_rows()[0][j] by {
                    lemma_row_chunk(0, w, c, j);
                    assert(chunk(row.rest@, ch as nat, j) =~= chunk(old_raw, ch as nat, 0 * w + j));
                }
                assert(row.remaining() =~= old(self).remaining_rows()[0]);
                vstd::arithmetic::div_mod::lemma_fundamental_div_mod(old_raw.len() as int, cw);
                vstd::arithmetic::div_mod::lemma_fundamental_div_mod(old_raw.len() - cw, cw);
                let n = old_raw.len() as int / cw;
                assert(n >= 1 && (old_raw.len() - cw) / cw == n - 1 && old_raw.len() == n * (c * w))
                    by (nonlinear_arith)
                    requires
                        old_raw.len() == cw * n + (old_raw.len() as int) % cw,
                        (old_raw.len() as int) % cw == 0,
                        old_raw.len() - cw == cw * ((old_raw.len() - cw) / cw) + (old_raw.len()
                            - cw) % cw,
                        (old_raw.len() - cw) % cw == 0,
                        old_raw.len() >= cw,
                        cw == c * w,
                        cw > 0,
                ;
                assert forall|i: int| 0 <= i < n - 1 implies #[trigger] self.remaining_rows()[i]
                    == old(self).remaining_rows().drop_first()[i] by {
                    assert forall|j: int| 0 <= j < w implies #[trigger] self.remaining_rows()[i][j]
                        == old(self).remaining_rows()[i + 1][j] by {
                        lemma_next_row(i, j, w, c, n);
                        lemma_chunk_of_skip(old_raw, ch as nat, cw, i * w + j, (i + 1) * w + j);
                    }
                    assert(self.remaining_rows()[i] =~= old(self).remaining_rows()[i + 1]);
                }
                assert(self.remaining_rows() =~= old(self).remaining_rows().drop_first());
            }
            Some(row)
        }
    }

    /// The last row: the last row's channels of the run, which leave it; what the run
    /// ends up holding is the rest followed by what the row ends up holding.
    pub fn next_back(&mut self) -> (r: Option<PixelsMut<'a, P>>)
        requires
            old(self).wf(),
        ensures
            final(self).wf(),
            final(self).width == old(self).width,
            old(self).rest@.len() == 0 ==> r is None && final(self).rest@ == old(self).rest@
                && final(final(self).rest)@ == final(old(self).rest)@,
            old(self).rest@.len() > 0 ==> (r matches Some(row)
                && row.wf()
                && row.rest@ == old(self).rest@.skip(
                    old(self).rest@.len() - P::spec_channel_count() * old(self).width,
                )
                && row.remaining() == old(self).remaining_rows().last()
                && final(self).rest@ == old(self).rest@.take(
                    old(self).rest@.len() - P::spec_channel_count() * old(self).width,
                )
                && final(self).remaining_rows() == old(self).remaining_rows().drop_last()
                && final(old(self).rest)@ == final(final(self).rest)@ + final(row.rest)@),
    {
        let ch = P::channel_count();
        let row_len = ch * self.width;
        assert(row_len > 0) by (nonlinear_arith)
            requires
                row_len == ch * self.width,
                ch > 0,
                self.width > 0,
        ;
        if self.rest.len() == 0 {
            None
        } else {
            proof {
                lemma_whole_after_taking(self.rest@.len() as int, row_len as int);
            }
            let mut rest: &'a mut [P::Subpixel] = &mut [];
            std::mem::swap(&mut rest, &mut self.rest);
            let mid = rest.len() - row_len;
            let (a, b) = rest.split_at_mut(mid);
            self.rest = a;
            let row = PixelsMut { rest: b, _phantom: PhantomData };
            proof {
                let old_raw = old(self).rest@;
                let w = self.width as int;
                let c = ch as int;
                let cw = row_len as int;
                vstd::arithmetic::div_mod::lemma_mod_multiples_basic(w, c);
                vstd::arithmetic::div_mod::lemma_div_multiples_vanish(w, c);
                assert(cw == w * c) by (nonlinear_arith)
                    requires
                        cw == c * w,
                ;
                assert(row.wf());
                vstd::arithmetic::div_mod::lemma_fundamental_div_mod(old_raw.len() as int, cw);
                vstd::arithmetic::div_mod::lemma_fundamental_div_mod(mid as int, cw);
                let n = old_raw.len() as int / cw;
                assert(n >= 1 && (mid as int) / cw == n - 1 && mid == (n - 1) * (c * w))
                    by (nonlinear_arith)
                    requires
                        old_raw.len() == cw * n + (old_raw.len() as int) % cw,
                        (old_raw.len() as int) % cw == 0,
                        mid == cw * ((mid as int) / cw) + (mid as int) % cw,
                        (mid as int) % cw == 0,
                        mid == old_raw.len() - cw,
                        cw == c * w,
                        cw > 0,
                ;
                assert forall|j: int| 0 <= j < w implies #[trigger] row.remaining()[j]
                    == old(self).remaining_rows().last()[j] by {
                    lemma_row_chunk(n - 1, w, c, j);
                    lemma_chunk_of_skip(old_raw, ch as nat, mid as int, j, (n - 1) * w + j);
                }
                assert(row.remaining() =~= old(self).remaining_rows().last());
                assert forall|i: int| 0 <= i < n - 1 implies #[trigger] self.remaining_rows()[i]
                    == old(self).remaining_rows().drop_last()[i] by {
                    assert forall|j: int| 0 <= j < w implies #[trigger] self.remaining_rows()[i][j]
                        == old(self).remaining_rows()[i][j] by {
                        lemma_next_row(i, j, w, c, n);
                        assert(chunk(self.rest@, ch as nat, i * w + j) =~= chunk(
                            old_raw,
                            ch as nat,
                            i * w + j,
                        ));
                    }
                    assert(self.remaining_rows()[i] =~= old(self).remaining_rows()[i]);
                }
                assert(self.remaining_rows() =~= old(self).remaining_rows().drop_last());
            }
            Some(row)
        }
    }

    /// How many rows are still to come.
    pub fn len(&self) -> (n: usize)
        requires
            self.wf(),
        ensures
            n == self.remaining_rows().len(),
    {
        let ch = P::channel_count();
        let row_len = ch * self.width;
        assert(row_len > 0) by (nonlinear_arith)
            requires
                row_len == ch * self.width,
                ch > 0,
                self.width > 0,
        ;
        self.rest.len() / row_len
    }
}

/// The pixels of an image to be written, each with its coordinates, row by row.
pub struct EnumeratePixelsMut<'a, P: Pixel> {
    pub pixels: PixelsMut<'a, P>,
    pub x: usize,
    pub y: usize,
    pub width: usize,
    /// How many pixels have been handed out.
    pub taken: Ghost<nat>,
}

impl<'a, P: Pixel> EnumeratePixelsMut<'a, P> {
    /// The pixels still to come.
    pub open spec fn remaining(&self) -> Seq<P> {
        self.pixels.remaining()
    }

    pub open spec fn wf(&self) -> bool {
        &&& self.pixels.wf()
        &&& self.taken@ + self.remaining().len() <= usize::MAX
        &&& self.width > 0 ==> {
            &&& self.x <= self.width
            &&& (self.y * self.width + self.x == self.taken@ || self.pixels.rest@.len() == 0)
        }
    }

    /// Whether the next call can move its column and row counters without overflow:
    /// always while pixels remain in an image of nonzero width.
    pub open spec fn can_advance(&self) -> bool {
        (self.width > 0 && self.remaining().len() > 0) || self.y < usize::MAX
    }

    /// The next pixel's coordinates and channels, which leave the run as `PixelsMut::next`
    /// says.
    pub fn next(&mut self) -> (r: Option<(usize, usize, &'a mut [P::Subpixel])>)
        requires
            old(self).wf(),
            old(self).can_advance(),
        ensures
            final(self).wf(),
            final(self).width == old(self).width,
            old(self).pixels.rest@.len() == 0 ==> r is None && final(self).pixels.rest@
                == old(self).pixels.rest@
                && final(final(self).pixels.rest)@ == final(old(self).pixels.rest)@,
            old(self).pixels.rest@.len() > 0 ==> (r matches Some((x, y, c))
                && c@ == old(self).pixels.rest@.take(P::spec_channel_count() as int)
                && P::spec_from_channels(c@) == old(self).remaining()[0]
                && (old(self).width > 0 ==> x < old(self).width && pixel_index(
                    old(self).width as nat,
                    x as int,
                    y as int,
                ) == old(self).taken@)
                && final(self).pixels.rest@ == old(self).pixels.rest@.skip(
                    P::spec_channel_count() as int,
                )
                && final(self).remaining() == old(self).remaining().drop_first()
                && final(self).taken@ == old(self).taken@ + 1
                && final(old(self).pixels.rest)@ == final(c)@ + final(final(self).pixels.rest)@),
    {
        proof {
            P::lemma_channel_count_positive();
            if self.pixels.rest@.len() > 0 {
                lemma_whole_after_taking(self.pixels.rest@.len() as int, P::spec_channel_count() as int);
                vstd::arithmetic::div_mod::lemma_div_is_ordered(
                    P::spec_channel_count() as int,
                    self.pixels.rest@.len() as int,
                    P::spec_channel_count() as int,
                );
                vstd::arithmetic::div_mod::lemma_div_by_self(P::spec_channel_count() as int);
            }
        }
        let ghost live = self.width > 0 && self.pixels.rest@.len() > 0;
        if self.x >= self.width {
            let ghost y0 = self.y as int;
            let ghost x0 = self.x as int;
            proof {
                if live {
                    assert(x0 == self.width);
                    assert(y0 * self.width + self.width == self.taken@);
                    assert(y0 + 1 <= usize::MAX) by (nonlinear_arith)
                        requires
                            y0 * self.width + self.width <= usize::MAX,
                            self.width > 0,
                    ;
                }
            }
            self.x = 0;
            self.y = self.y + 1;
            proof {
                let w = self.width as int;
                assert(self.y * w + self.x == y0 * w + w) by (nonlinear_arith)
                    requires
                        self.y == y0 + 1,
                        self.x == 0,
                ;
            }
        }
        assert(live ==> self.y * self.width + self.x == self.taken@);
        assert(live ==> self.x < self.width);
        let x = self.x;
        let y = self.y;
        self.x = self.x + 1;
        let r = self.pixels.next();
        proof {
            if r.is_some() {
                self.taken = Ghost(self.taken@ + 1);
            }
        }
        match r {
            Some(c) => Some((x, y, c)),
            None => None,
        }
    }

    /// How many pixels are still to come.
    pub fn len(&self) -> (n: usize)
        requires
            self.wf(),
        ensures
            n == self.remaining().len(),
    {
        self.pixels.len()
    }
}

/// Pixel number `k` of a buffer whose chunks are whole fits below `len / ch`.
proof fn lemma_chunk_below_count(k: int, ch: int, len: int)
    requires
        0 <= k,
        ch > 0,
        k * ch + ch <= len,
    ensures
        k < len / ch,
{
    vstd::arithmetic::div_mod::lemma_fundamental_div_mod(len, ch);
    let q = len / ch;
    let r = len % ch;
    assert(k < q) by (nonlinear_arith)
        requires
            len == ch * q + r,
            0 <= r < ch,
            k * ch + ch <= len,
            ch > 0,
            0 <= k,
    ;
}

/// Pixel `(x, y)` of a `width` by `height` image lies within a buffer of `len` channels.
proof fn lemma_pixel_in_buffer(x: int, y: int, w: int, h: int, ch: int, len: int)
    requires
        0 <= x < w,
        0 <= y < h,
        ch > 0,
        ch * w * h <= len,
    ensures
        0 <= y * w + x < w * h,
        0 <= (y * w + x) * ch,
        (y * w + x) * ch + ch <= ch * w * h,
        (y * w + x) * ch + ch <= len,
        y * w + x < len / ch,
{
    lemma_index_in_image(x, y, w, h);
    lemma_chunk_end(y * w + x, w * h, ch);
    lemma_len_assoc(ch, w, h);
    lemma_chunk_below_count(y * w + x, ch, len);
}

/// How many channels an image of this size takes, when the count fits in `usize`.
///
/// The count is formed as `(channels * width) * height`, and each product must fit.
pub open spec fn spec_image_buffer_len(ch: nat, width: nat, height: nat) -> Option<nat> {
    if ch * width <= usize::MAX && ch * width * height <= usize::MAX {
        Some(ch * width * height)
    } else {
        None
    }
}

// ---------------------------------------------------------------------------
// The image buffer
// ---------------------------------------------------------------------------

/// What an image buffer holds: its size and its channels, pixel after pixel.
pub struct ImageView<P: Pixel> {
    pub width: nat,
    pub height: nat,
    pub raw: Seq<P::Subpixel>,
}

impl<P: Pixel> ImageView<P> {
    /// The image fits its buffer: `channels * width * height` fits in `usize` and
    /// the buffer holds at least that many channels.
    pub open spec fn wf(self) -> bool {
        &&& spec_image_buffer_len(P::spec_channel_count(), self.width, self.height) is Some
        &&& P::spec_channel_count() * self.width * self.height <= self.raw.len()
        &&& self.raw.len() <= usize::MAX
    }

    /// Whether `(x, y)` names a pixel of the image.
    pub open spec fn in_bounds(self, x: int, y: int) -> bool {
        0 <= x < self.width && 0 <= y < self.height
    }

    /// Pixel `(x, y)`: the channels at its offset, read as a pixel.
    pub open spec fn pixel(self, x: int, y: int) -> P {
        P::spec_from_channels(
            chunk(self.raw, P::spec_channel_count(), pixel_index(self.width, x, y)),
        )
    }

    /// Every whole pixel of the buffer in storage order, extra channels past the image included.
    pub open spec fn all_pixels(self) -> Seq<P> {
        Seq::new(
            self.raw.len() / P::spec_channel_count(),
            |k: int| P::spec_from_channels(chunk(self.raw, P::spec_channel_count(), k)),
        )
    }

    /// Whether the buffer is made of whole pixels only.
    pub open spec fn whole_pixels(self) -> bool {
        self.raw.len() % P::spec_channel_count() == 0
    }

    /// Whether the buffer is made of whole rows only.
    pub open spec fn whole_rows(self) -> bool {
        &&& self.width > 0
        &&& self.raw.len() % (P::spec_channel_count() * self.width) == 0
    }

    /// The image after pixel `(x, y)` has been set to `p`.
    pub open spec fn put_pixel(self, x: int, y: int, p: P) -> Self {
        ImageView {
            raw: write_chunk(
                self.raw,
                P::spec_channel_count(),
                pixel_index(self.width, x, y),
                p.spec_channels(),
            ),
            ..self
        }
    }
}

/// A `width` by `height` image stored as a flat run of channels, row by row.
pub struct ImageBuffer<P: Pixel> {
    width: usize,
    height: usize,
    _phantom: PhantomData<P>,
    data: Vec<P::Subpixel>,
}

pub type VecImageBuffer<P> = ImageBuffer<P>;

impl<P: Pixel> View for ImageBuffer<P> {
    type V = ImageView<P>;

    closed spec fn view(&self) -> ImageView<P> {
        ImageView { width: self.width as nat, height: self.height as nat, raw: self.data@ }
    }
}


/// The pixels of `raw` grouped into rows of `width` pixels: row `r`, pixel `j` is pixel
/// number `r * width + j`.
pub open spec fn rows_of<P: Pixel>(raw: Seq<P::Subpixel>, width: nat, front: int, count: nat) -> Seq<Seq<P>> {
    Seq::new(
        count,
        |i: int|
            Seq::new(
                width,
                |j: int|
                    P::spec_from_channels(
                        chunk(raw, P::spec_channel_count(), (front + i) * width + j),
                    ),
            ),
    )
}

impl<P: Pixel> ImageView<P> {
    /// Writing a pixel of the image changes that pixel and no other, and keeps the
    /// image well formed.
    pub proof fn lemma_put_pixel(self, x: int, y: int, p: P, x2: int, y2: int)
        requires
            self.wf(),
            self.in_bounds(x, y),
            self.in_bounds(x2, y2),
        ensures
            self.put_pixel(x, y, p).wf(),
            self.put_pixel(x, y, p).width == self.width,
            self.put_pixel(x, y, p).height == self.height,
            self.put_pixel(x, y, p).raw.len() == self.raw.len(),
            self.put_pixel(x, y, p).pixel(x2, y2) == if x2 == x && y2 == y {
                p
            } else {
                self.pixel(x2, y2)
            },
    {
        let ch = P::spec_channel_count();
        let w = self.width as int;
        let h = self.height as int;
        P::lemma_channel_count_positive();
        P::lemma_channels_round_trip(p);
        lemma_pixel_in_buffer(x, y, w, h, ch as int, self.raw.len() as int);
        lemma_pixel_in_buffer(x2, y2, w, h, ch as int, self.raw.len() as int);
        lemma_write_chunk(self.raw, ch, y * w + x, p.spec_channels(), y2 * w + x2);
        if y2 * w + x2 == y * w + x {
            lemma_index_unique(x, y, x2, y2, w);
        }
    }

    /// Writing the same pixel twice leaves only the second write.
    pub proof fn lemma_put_pixel_twice(self, x: int, y: int, p: P, q: P)
        requires
            self.wf(),
            self.in_bounds(x, y),
        ensures
            self.put_pixel(x, y, p).put_pixel(x, y, q) == self.put_pixel(x, y, q),
    {
        P::lemma_channels_round_trip(p);
        P::lemma_channels_round_trip(q);
        assert(self.put_pixel(x, y, p).put_pixel(x, y, q).raw =~= self.put_pixel(x, y, q).raw);
    }

    /// Writes to two different pixels can be done in either order.
    pub proof fn lemma_put_pixel_commutes(self, x1: int, y1: int, p: P, x2: int, y2: int, q: P)
        requires
            self.wf(),
            self.in_bounds(x1, y1),
            self.in_bounds(x2, y2),
            x1 != x2 || y1 != y2,
        ensures
            self.put_pixel(x1, y1, p).put_pixel(x2, y2, q) == self.put_pixel(x2, y2, q).put_pixel(
                x1,
                y1,
                p,
            ),
    {
        let ch = P::spec_channel_count() as int;
        let w = self.width as int;
        P::lemma_channel_count_positive();
        P::lemma_channels_round_trip(p);
        P::lemma_channels_round_trip(q);
        let k1 = y1 * w + x1;
        let k2 = y2 * w + x2;
        if k1 == k2 {
            lemma_index_unique(x1, y1, x2, y2, w);
        }
        lemma_index_in_image(x1, y1, w, self.height as int);
        lemma_index_in_image(x2, y2, w, self.height as int);
        if k1 < k2 {
            lemma_chunks_apart(k1, k2, ch);
        } else {
            lemma_chunks_apart(k2, k1, ch);
        }
        assert(self.put_pixel(x1, y1, p).put_pixel(x2, y2, q).raw =~= self.put_pixel(
            x2,
            y2,
            q,
        ).put_pixel(x1, y1, p).raw);
    }

    /// Pixel `(x, y)` of the image is pixel number `y * width + x` of the buffer.
    pub proof fn lemma_pixel_is_stored(self, x: int, y: int)
        requires
            self.wf(),
            self.in_bounds(x, y),
        ensures
            pixel_index(self.width, x, y) < self.all_pixels().len(),
            self.all_pixels()[pixel_index(self.width, x, y)] == self.pixel(x, y),
    {
        P::lemma_channel_count_positive();
        lemma_pixel_in_buffer(
            x,
            y,
            self.width as int,
            self.height as int,
            P::spec_channel_count() as int,
            self.raw.len() as int,
        );
    }
}

/// A view of an image's pixels: its size and how to read one pixel.
pub trait Surface<P: Pixel> {
    spec fn surface(&self) -> ImageView<P>;

    fn width(&self) -> (w: usize)
        requires
            self.surface().wf(),
        ensures
            w == self.surface().width,
    ;

    fn height(&self) -> (h: usize)
        requires
            self.surface().wf(),
        ensures
            h == self.surface().height,
    ;

    fn dimensions(&self) -> (d: (usize, usize))
        requires
            self.surface().wf(),
        ensures
            d.0 == self.surface().width,
            d.1 == self.surface().height,
    ;

    fn get_pixel(&self, x: usize, y: usize) -> (p: P)
        requires
            self.surface().wf(),
            self.surface().in_bounds(x as int, y as int),
        ensures
            p == self.surface().pixel(x as int, y as int),
    ;

    fn pixels(&self) -> (it: Pixels<'_, P>)
        requires
            self.surface().wf(),
            self.surface().whole_pixels(),
        ensures
            it.wf(),
            it.taken() == 0,
            it.remaining() == self.surface().all_pixels(),
    ;

    fn rows(&self) -> (it: Rows<'_, P>)
        requires
            self.surface().wf(),
            self.surface().whole_rows(),
        ensures
            it.wf(),
            it.row_width() == self.surface().width,
            it.remaining_rows() == rows_of::<P>(
                self.surface().raw,
                self.surface().width,
                0,
                self.surface().raw.len() / (P::spec_channel_count() * self.surface().width),
            ),
    ;

    fn enumerate_pixels(&self) -> (it: EnumeratePixels<'_, P>)
        requires
            self.surface().wf(),
            self.surface().whole_pixels(),
        ensures
            it.wf(),
            it.position() == 0,
            it.row_width() == self.surface().width,
            it.remaining() == self.surface().all_pixels(),
    ;
}

/// A surface whose pixels can be written.
pub trait SurfaceMut<P: Pixel>: Surface<P> {
    fn put_pixel(&mut self, x: usize, y: usize, p: P)
        requires
            old(self).surface().wf(),
            old(self).surface().in_bounds(x as int, y as int),
        ensures
            final(self).surface() == old(self).surface().put_pixel(x as int, y as int, p),
    ;

    fn clear(&mut self, fill_color: P)
        requires
            old(self).surface().wf(),
            old(self).surface().whole_pixels(),
        ensures
            final(self).surface().wf(),
            final(self).surface().width == old(self).surface().width,
            final(self).surface().height == old(self).surface().height,
            final(self).surface().raw.len() == old(self).surface().raw.len(),
            final(self).surface().all_pixels() == Seq::new(
                old(self).surface().all_pixels().len(),
                |k: int| fill_color,
            ),
    ;

    /// The channels of pixel `(x, y)`, to be read and written: what they end up holding
    /// is what the image ends up holding there.
    fn get_pixel_mut(&mut self, x: usize, y: usize) -> (c: &mut [P::Subpixel])
        requires
            old(self).surface().wf(),
            old(self).surface().in_bounds(x as int, y as int),
        ensures
            c@ == chunk(
                old(self).surface().raw,
                P::spec_channel_count(),
                pixel_index(old(self).surface().width, x as int, y as int),
            ),
            P::spec_from_channels(c@) == old(self).surface().pixel(x as int, y as int),
            final(self).surface() == (ImageView::<P> {
                raw: old(self).surface().raw.take(
                    pixel_index(old(self).surface().width, x as int, y as int)
                        * P::spec_channel_count(),
                ) + final(c)@ + old(self).surface().raw.skip(
                    pixel_index(old(self).surface().width, x as int, y as int)
                        * P::spec_channel_count() + P::spec_channel_count(),
                ),
                ..old(self).surface()
            }),
    ;

    /// The pixels of the image, front to back, to be written.
    fn pixels_mut(&mut self) -> (it: PixelsMut<'_, P>)
        requires
            old(self).surface().wf(),
            old(self).surface().whole_pixels(),
        ensures
            it.wf(),
            it.rest@ == old(self).surface().raw,
            it.remaining() == old(self).surface().all_pixels(),
            final(self).surface() == (ImageView::<P> { raw: final(it.rest)@, ..old(self).surface() }),
    ;

    /// The rows of the image, front to back, to be written.
    fn rows_mut(&mut self) -> (it: RowsMut<'_, P>)
        requires
            old(self).surface().wf(),
            old(self).surface().whole_rows(),
        ensures
            it.wf(),
            it.width == old(self).surface().width,
            it.rest@ == old(self).surface().raw,
            it.remaining_rows() == rows_of::<P>(
                old(self).surface().raw,
                old(self).surface().width,
                0,
                old(self).surface().raw.len() / (P::spec_channel_count() * old(self).surface().width),
            ),
            final(self).surface() == (ImageView::<P> { raw: final(it.rest)@, ..old(self).surface() }),
    ;

    /// The pixels of the image with their coordinates, row by row, to be written.
    fn enumerate_pixels_mut(&mut self) -> (it: EnumeratePixelsMut<'_, P>)
        requires
            old(self).surface().wf(),
            old(self).surface().whole_pixels(),
        ensures
            it.wf(),
            it.taken@ == 0,
            it.x == 0,
            it.y == 0,
            it.width == old(self).surface().width,
            it.pixels.rest@ == old(self).surface().raw,
            it.remaining() == old(self).surface().all_pixels(),
            final(self).surface() == (ImageView::<P> {
                raw: final(it.pixels.rest)@,
                ..old(self).surface()
            }),
    ;
}


impl<P: Pixel> ImageBuffer<P> {
    /// Wraps `data` as a `width` by `height` image, if it holds enough channels.
    pub fn from_raw(width: usize, height: usize, data: Vec<P::Subpixel>) -> (r: Option<Self>)
        ensures
            r is Some <==> (spec_image_buffer_len(
                P::spec_channel_count(),
                width as nat,
                height as nat,
            ) matches Some(n) && n <= data@.len()),
            r matches Some(img) ==> img@ == (ImageView::<P> {
                width: width as nat,
                height: height as nat,
                raw: data@,
            }) && img@.wf(),
    {
        if Self::check_image_fits(width, height, data.len()) {
            Some(ImageBuffer { width, height, data, _phantom: PhantomData })
        } else {
            None
        }
    }

    /// Hands back the channels.
    pub fn into_raw(self) -> (d: Vec<P::Subpixel>)
        ensures
            d@ == self@.raw,
    {
        self.data
    }

    fn check_image_fits(width: usize, height: usize, len: usize) -> (b: bool)
        ensures
            b == (spec_image_buffer_len(P::spec_channel_count(), width as nat, height as nat) matches Some(
                n,
            ) && n <= len),
    {
        let checked_len = Self::image_buffer_len(width, height);
        match checked_len {
            Some(min_len) => min_len <= len,
            None => false,
        }
    }

    fn image_buffer_len(width: usize, height: usize) -> (r: Option<usize>)
        ensures
            match spec_image_buffer_len(P::spec_channel_count(), width as nat, height as nat) {
                Some(n) => r == Some(n as usize),
                None => r is None,
            },
    {
        let ch = P::channel_count();
        match ch.checked_mul(width) {
            Some(size) => size.checked_mul(height),
            None => None,
        }
    }

    /// The channel positions of pixel `(x, y)`, when it is inside the image.
    fn pixel_range(&self, x: usize, y: usize) -> (r: Option<Range<usize>>)
        requires
            self@.wf(),
        ensures
            self@.in_bounds(x as int, y as int) ==> r == Some(
                Range {
                    start: (pixel_index(self@.width, x as int, y as int)
                        * P::spec_channel_count()) as usize,
                    end: (pixel_index(self@.width, x as int, y as int) * P::spec_channel_count()
                        + P::spec_channel_count()) as usize,
                },
            ),
            !self@.in_bounds(x as int, y as int) ==> r is None,
    {
        if x >= self.width || y >= self.height {
            None
        } else {
            Some(self.pixel_range_unchecked(x, y))
        }
    }

    fn pixel_range_unchecked(&self, x: usize, y: usize) -> (r: Range<usize>)
        requires
            self@.wf(),
            self@.in_bounds(x as int, y as int),
        ensures
            r == (Range {
                start: (pixel_index(self@.width, x as int, y as int) * P::spec_channel_count())
                    as usize,
                end: (pixel_index(self@.width, x as int, y as int) * P::spec_channel_count()
                    + P::spec_channel_count()) as usize,
            }),
            r.end <= self@.raw.len(),
    {
        let channel_count = P::channel_count();
        proof {
            lemma_pixel_in_buffer(
                x as int,
                y as int,
                self.width as int,
                self.height as int,
                channel_count as int,
                self.data@.len() as int,
            );
        }
        let min_index = ((y * self.width) + x) * channel_count;
        min_index..min_index + channel_count
    }

    /// Writes the channels of `p` at channel position `start`.
    fn write_channels_at(&mut self, start: usize, p: P)
        requires
            start + P::spec_channel_count() <= old(self)@.raw.len(),
        ensures
            final(self)@ == (ImageView::<P> {
                raw: overwrite(old(self)@.raw, start as int, p.spec_channels()),
                ..old(self)@
            }),
    {
        let ch = P::channel_count();
        let len = self.data.len();
        proof {
            P::lemma_channels_round_trip(p);
        }
        let mut i: usize = 0;
        while i < ch
            invariant
                0 <= i <= ch,
                start + ch <= len,
                len == old(self)@.raw.len(),
                ch == P::spec_channel_count(),
                start + ch <= old(self)@.raw.len(),
                self.width == old(self).width,
                self.height == old(self).height,
                self.data@.len() == old(self)@.raw.len(),
                p.spec_channels().len() == ch,
                forall|j: int|
                    0 <= j < self.data@.len() ==> #[trigger] self.data@[j] == (if start <= j < start
                        + i {
                        p.spec_channels()[j - start]
                    } else {
                        old(self)@.raw[j]
                    }),
            decreases ch - i,
        {
            proof { P::lemma_channels_round_trip(p); }
            let c = p.channel(i);
            self.data.set(start + i, c);
            i = i + 1;
        }
        proof {
            assert(self@.raw =~= overwrite(old(self)@.raw, start as int, p.spec_channels()));
        }
    }
}

impl<P: Pixel> Surface<P> for ImageBuffer<P> {
    open spec fn surface(&self) -> ImageView<P> {
        self@
    }

    fn width(&self) -> (w: usize) {
        self.width
    }

    fn height(&self) -> (h: usize) {
        self.height
    }

    fn dimensions(&self) -> (d: (usize, usize)) {
        (self.width, self.height)
    }

    fn get_pixel(&self, x: usize, y: usize) -> (p: P) {
        if let Some(range) = self.pixel_range(x, y) {
            proof {
                P::lemma_channel_count_positive();
                lemma_pixel_in_buffer(
                    x as int,
                    y as int,
                    self.width as int,
                    self.height as int,
                    P::spec_channel_count() as int,
                    self.data@.len() as int,
                );
            }
            P::from_slice(&self.data.as_slice()[range.start..range.end])
        } else {
            vstd::pervasive::unreached()
        }
    }

    fn pixels(&self) -> (it: Pixels<'_, P>) {
        let it = Pixels::over(self.data.as_slice());
        proof {
            assert(it.remaining() =~= self@.all_pixels());
        }
        it
    }

    fn rows(&self) -> (it: Rows<'_, P>) {
        let ch = P::channel_count();
        Rows::over(self.data.as_slice(), self.width)
    }

    fn enumerate_pixels(&self) -> (it: EnumeratePixels<'_, P>) {
        let pixels = self.pixels();
        EnumeratePixels { pixels, x: 0, y: 0, width: self.width }
    }
}

impl<P: Pixel> SurfaceMut<P> for ImageBuffer<P> {
    fn put_pixel(&mut self, x: usize, y: usize, p: P) {
        if let Some(range) = self.pixel_range(x, y) {
            proof {
                P::lemma_channel_count_positive();
                lemma_pixel_in_buffer(
                    x as int,
                    y as int,
                    self.width as int,
                    self.height as int,
                    P::spec_channel_count() as int,
                    self.data@.len() as int,
                );
            }
            self.write_channels_at(range.start, p);
            proof {
                assert(self@.raw =~= old(self)@.put_pixel(x as int, y as int, p).raw);
            }
        } else {
            vstd::pervasive::unreached::<()>()
        }
    }

    fn clear(&mut self, fill_color: P) {
        let ch = P::channel_count();
        let n = self.data.len() / ch;
        proof {
            let l = self.data@.len() as int;
            let c = ch as int;
            vstd::arithmetic::div_mod::lemma_fundamental_div_mod(l, c);
            assert(n * c == l) by (nonlinear_arith)
                requires
                    l == c * (l / c) + l % c,
                    l % c == 0,
                    n == l / c,
            ;
            P::lemma_channels_round_trip(fill_color);
        }
        let mut k: usize = 0;
        while k < n
            invariant
                0 <= k <= n,
                ch == P::spec_channel_count(),
                ch > 0,
                n * ch == self.data@.len(),
                n * ch <= usize::MAX,
                n == old(self)@.raw.len() / (ch as nat),
                self.width == old(self).width,
                self.height == old(self).height,
                self.data@.len() == old(self)@.raw.len(),
                fill_color.spec_channels().len() == ch,
                forall|k2: int|
                    0 <= k2 < k ==> #[trigger] chunk(self.data@, ch as nat, k2)
                        == fill_color.spec_channels(),
            decreases n - k,
        {
            proof {
                lemma_chunk_end(k as int, n as int, ch as int);
            }
            let ghost before = self.data@;
            self.write_channels_at(k * ch, fill_color);
            proof {
                assert(self.data@ =~= write_chunk(before, ch as nat, k as int, fill_color.spec_channels()));
                assert forall|k2: int| 0 <= k2 < k + 1 implies #[trigger] chunk(
                    self.data@,
                    ch as nat,
                    k2,
                ) == fill_color.spec_channels() by {
                    lemma_chunk_end(k2, n as int, ch as int);
                    lemma_write_chunk(before, ch as nat, k as int, fill_color.spec_channels(), k2);
                }
            }
            k = k + 1;
        }
        proof {
            assert(self@.all_pixels() =~= Seq::new(
                old(self)@.all_pixels().len(),
                |k: int| fill_color,
            ));
        }
    }

    fn get_pixel_mut(&mut self, x: usize, y: usize) -> (c: &mut [P::Subpixel]) {
        if let Some(range) = self.pixel_range(x, y) {
            proof {
                P::lemma_channel_count_positive();
                lemma_pixel_in_buffer(
                    x as int,
                    y as int,
                    self.width as int,
                    self.height as int,
                    P::spec_channel_count() as int,
                    self.data@.len() as int,
                );
            }
            let data = self.data.as_mut_slice();
            let (head, tail) = data.split_at_mut(range.start);
            let (c, after) = tail.split_at_mut(range.end - range.start);
            proof {
                let raw = old(self)@.raw;
                assert(c@ =~= chunk(
                    raw,
                    P::spec_channel_count(),
                    pixel_index(old(self)@.width, x as int, y as int),
                ));
                assert(final(head)@ == head@);
                assert(final(after)@ == after@);
                assert(head@ =~= raw.take(range.start as int));
                assert(after@ =~= raw.skip(range.end as int));
                assert(final(head)@ + (final(c)@ + final(after)@) =~= raw.take(range.start as int)
                    + final(c)@ + raw.skip(range.end as int));
            }
            c
        } else {
            vstd::pervasive::unreached()
        }
    }

    fn pixels_mut(&mut self) -> (it: PixelsMut<'_, P>) {
        let it = PixelsMut { rest: self.data.as_mut_slice(), _phantom: PhantomData };
        proof {
            assert(it.remaining() =~= old(self)@.all_pixels());
        }
        it
    }

    fn rows_mut(&mut self) -> (it: RowsMut<'_, P>) {
        let width = self.width;
        RowsMut { rest: self.data.as_mut_slice(), width, _phantom: PhantomData }
    }

    fn enumerate_pixels_mut(&mut self) -> (it: EnumeratePixelsMut<'_, P>) {
        let width = self.width;
        proof {
            P::lemma_channel_count_positive();
            vstd::arithmetic::div_mod::lemma_div_is_ordered_by_denominator(
                self.data@.len() as int,
                1,
                P::spec_channel_count() as int,
            );
        }
        let pixels = self.pixels_mut();
        EnumeratePixelsMut { pixels, x: 0, y: 0, width, taken: Ghost(0) }
    }
}

/// A blank `width` by `height` image, when its size fits in memory.
fn sized_image<P: Pixel>(width: usize, height: usize) -> (r: Option<VecImageBuffer<P>>)
    ensures
        r is Some <==> (spec_image_buffer_len(P::spec_channel_count(), width as nat, height as nat)
            is Some),
        r matches Some(img) ==> {
            &&& img@.wf()
            &&& img@.width == width
            &&& img@.height == height
            &&& img@.raw.len() == P::spec_channel_count() * width * height
        },
{
    match VecImageBuffer::<P>::image_buffer_len(width, height) {
        Some(bytes) => VecImageBuffer::<P>::from_raw(width, height, vec![P::zero_subpixel(); bytes]),
        None => None,
    }
}

/// A `width` by `height` image with every pixel set to `fill`, when its size fits in memory.
pub fn filled_image<P: Pixel>(width: usize, height: usize, fill: P) -> (r: Option<VecImageBuffer<P>>)
    ensures
        r is Some <==> (spec_image_buffer_len(P::spec_channel_count(), width as nat, height as nat)
            is Some),
        r matches Some(img) ==> {
            &&& img@.wf()
            &&& img@.width == width
            &&& img@.height == height
            &&& img@.raw.len() == P::spec_channel_count() * width * height
            &&& img@.whole_pixels()
            &&& img@.all_pixels() == Seq::new(img@.all_pixels().len(), |k: int| fill)
            &&& forall|x: int, y: int|
                img@.in_bounds(x, y) ==> #[trigger] img@.pixel(x, y) == fill
        },
{
    if let Some(mut img) = sized_image(width, height) {
        proof {
            let ch = P::spec_channel_count() as int;
            P::lemma_channel_count_positive();
            lemma_len_assoc(ch, width as int, height as int);
            vstd::arithmetic::div_mod::lemma_mod_multiples_basic(width * height, ch);
        }
        img.clear(fill);
        proof {
            assert forall|x: int, y: int| img@.in_bounds(x, y) implies #[trigger] img@.pixel(x, y)
                == fill by {
                img@.lemma_pixel_is_stored(x, y);
            }
        }
        Some(img)
    } else {
        None
    }
}

} // verus!
