//! The screen cut into horizontal bands that are composed independently.

use vstd::prelude::*;
use crate::wt::compose::{
    bands_compose, composed_band, composite_band, shadow_in_range, WinDesc,
};

verus! {

/// How many bands there are at most.
pub const MAX_BANDS: usize = 16;

/// How many bands the screen is cut into: one per processor, within limits.
pub open spec fn band_count(cpus_online: int) -> int {
    if cpus_online < 1 {
        1
    } else if cpus_online > MAX_BANDS {
        MAX_BANDS as int
    } else {
        cpus_online
    }
}

/// How many rows a band has: the screen divided evenly, rounded up.
pub open spec fn band_rows(cpus_online: int, screen_h: int) -> int {
    (screen_h + band_count(cpus_online) - 1) / band_count(cpus_online)
}

/// Whether `bands` cut the rows `[0, h)` into consecutive pieces of `rows` rows, the last
/// one with what is left.
pub open spec fn cuts(bands: Seq<(u32, u32)>, h: int, rows: int) -> bool {
    &&& 0 <= rows
    &&& forall|i: int| 0 <= i < bands.len() ==> (#[trigger] bands[i]).0 == i * rows && bands[i].0 < bands[i].1
    &&& forall|i: int|
        0 <= i < bands.len() ==> (#[trigger] bands[i]).1 == if (i + 1) * rows < h {
            (i + 1) * rows
        } else {
            h
        }
    &&& bands.len() > 0 ==> bands.last().1 == h
    &&& bands.len() == 0 ==> h == 0
}

/// The buffer after the bands were composed one after the other.
pub open spec fn after_bands(
    back: Seq<u8>,
    stride: int,
    sw: int,
    bands: Seq<(u32, u32)>,
    bg: u32,
    wins: Seq<WinDesc>,
) -> Seq<u8>
    decreases bands.len(),
{
    if bands.len() == 0 {
        back
    } else {
        composed_band(
            after_bands(back, stride, sw, bands.drop_last(), bg, wins),
            stride,
            sw,
            bands.last().0 as int,
            bands.last().1 as int,
            bg,
            wins,
        )
    }
}

proof fn lemma_after_some(
    back: Seq<u8>,
    stride: int,
    sw: int,
    bands: Seq<(u32, u32)>,
    h: int,
    rows: int,
    bg: u32,
    wins: Seq<WinDesc>,
    n: int,
)
    requires
        0 < stride,
        cuts(bands, h, rows),
        0 < n <= bands.len(),
    ensures
        after_bands(back, stride, sw, bands.take(n), bg, wins) == composed_band(
            back,
            stride,
            sw,
            0,
            bands[n - 1].1 as int,
            bg,
            wins,
        ),
    decreases n,
{
    let t = bands.take(n);
    assert(t.drop_last() =~= bands.take(n - 1));
    assert(t.last() == bands[n - 1]);
    if n == 1 {
        reveal_with_fuel(after_bands, 2);
        assert(bands[0].0 == 0 * rows);
        assert(bands.take(0).len() == 0);
    } else {
        lemma_after_some(back, stride, sw, bands, h, rows, bg, wins, n - 1);
        assert(bands[n - 1].0 == (n - 1) * rows);
        assert(bands[n - 2].1 == if (n - 1) * rows < h { (n - 1) * rows } else { h });
        assert(bands[n - 1].0 < bands[n - 1].1 <= h);
        assert(bands[n - 2].0 < bands[n - 2].1);
        bands_compose(back, stride, sw, 0, bands[n - 2].1 as int, bands[n - 1].1 as int, bg, wins);
    }
}

/// Composing every band of the screen gives what composing the screen in one go gives, byte
/// for byte, whatever the number of processors.
pub proof fn bands_give_the_screen(
    back: Seq<u8>,
    stride: int,
    sw: int,
    bands: Seq<(u32, u32)>,
    h: int,
    rows: int,
    bg: u32,
    wins: Seq<WinDesc>,
)
    requires
        0 < stride,
        cuts(bands, h, rows),
    ensures
        after_bands(back, stride, sw, bands, bg, wins) == composed_band(back, stride, sw, 0, h, bg, wins),
{
    if bands.len() == 0 {
        assert(composed_band(back, stride, sw, 0, h, bg, wins) =~= back);
    } else {
        lemma_after_some(back, stride, sw, bands, h, rows, bg, wins, bands.len() as int);
        assert(bands.take(bands.len() as int) =~= bands);
    }
}

/// Every row of the screen lies in exactly one band.
pub proof fn bands_partition_rows(bands: Seq<(u32, u32)>, h: int, rows: int, i: int, j: int, row: int)
    requires
        cuts(bands, h, rows),
        0 <= i < bands.len(),
        0 <= j < bands.len(),
        bands[i].0 <= row < bands[i].1,
        bands[j].0 <= row < bands[j].1,
    ensures
        i == j,
{
    if i < j {
        assert((i + 1) * rows <= j * rows) by (nonlinear_arith)
            requires
                i < j,
                rows >= 0,
        ;
    } else if j < i {
        assert((j + 1) * rows <= i * rows) by (nonlinear_arith)
            requires
                j < i,
                rows >= 0,
        ;
    }
}

/// Cuts the screen into bands.
pub fn split_bands(cpus_online: u32, screen_h: u32) -> (bands: Vec<(u32, u32)>)
    ensures
        cuts(bands@, screen_h as int, band_rows(cpus_online as int, screen_h as int)),
        bands@.len() <= band_count(cpus_online as int),
{
    let n: u64 = if cpus_online < 1 {
        1
    } else if cpus_online as usize > MAX_BANDS {
        MAX_BANDS as u64
    } else {
        cpus_online as u64
    };
    let h: u64 = screen_h as u64;
    let rows: u64 = (h + n - 1) / n;
    let mut bands: Vec<(u32, u32)> = Vec::new();
    let mut b: u64 = 0;
    if h == 0 {
        return bands;
    }
    proof {
        assert(n * rows >= h && rows >= 1) by (nonlinear_arith)
            requires
                rows == (h + n - 1) / n as int,
                1 <= n,
                1 <= h,
        ;
        assert(rows <= h) by (nonlinear_arith)
            requires
                rows == (h + n - 1) / n as int,
                1 <= n,
                1 <= h,
        ;
    }
    while b < n && b * rows < h
        invariant
            b <= n <= 16,
            1 <= rows <= h <= u32::MAX,
            n * rows >= h,
            h == screen_h,
            bands@.len() == b,
            b * rows < h + rows,
            forall|i: int| 0 <= i < bands@.len() ==> (#[trigger] bands@[i]).0 == i * rows && bands@[i].0 < bands@[i].1,
            forall|i: int|
                0 <= i < bands@.len() ==> (#[trigger] bands@[i]).1 == if (i + 1) * rows < h {
                    (i + 1) * rows
                } else {
                    h as int
                },
        decreases n - b,
    {
        proof {
            assert((b + 1) * rows == b * rows + rows) by (nonlinear_arith);
        }
        let y0: u64 = b * rows;
        let y1: u64 = if y0 + rows < h { y0 + rows } else { h };
        bands.push((y0 as u32, y1 as u32));
        b += 1;
    }
    proof {
        if b == n {
            assert(b * rows >= h);
        }
        let last = bands@.len() - 1;
        assert(bands@[last].1 == if (last + 1) * rows < h { (last + 1) * rows } else { h as int });
    }
    bands
}

/// Composes the whole screen, band by band, into a buffer of `stride` bytes per row.
pub fn dispatch_bands(
    back: &mut [u8],
    stride: usize,
    screen_w: u32,
    screen_h: u32,
    bg: u32,
    wins: &[WinDesc],
    cpus_online: u32,
)
    requires
        0 < stride,
        screen_w * 4 <= stride,
        screen_w < i32::MAX,
        screen_h < i32::MAX,
        screen_h * stride <= old(back)@.len(),
        forall|i: int| 0 <= i < wins@.len() && (#[trigger] wins@[i]).shadow ==> shadow_in_range(wins@[i]),
    ensures
        final(back)@ == composed_band(
            old(back)@,
            stride as int,
            screen_w as int,
            0,
            screen_h as int,
            bg,
            wins@,
        ),
{
    let ghost start = back@;
    let ghost rows = band_rows(cpus_online as int, screen_h as int);
    let bands = split_bands(cpus_online, screen_h);
    let mut i: usize = 0;
    assert(bands@.take(0) =~= Seq::empty());
    while i < bands.len()
        invariant
            i <= bands@.len(),
            0 < stride,
            screen_w * 4 <= stride,
            screen_w < i32::MAX,
            screen_h < i32::MAX,
            screen_h * stride <= back@.len(),
            back@.len() == start.len(),
            cuts(bands@, screen_h as int, rows),
            forall|i: int| 0 <= i < wins@.len() && (#[trigger] wins@[i]).shadow ==> shadow_in_range(wins@[i]),
            back@ == after_bands(start, stride as int, screen_w as int, bands@.take(i as int), bg, wins@),
        decreases bands@.len() - i,
    {
        let y0: u32 = bands[i].0;
        let y1: u32 = bands[i].1;
        proof {
            assert(bands@[i as int].0 < bands@[i as int].1);
            assert(y1 <= screen_h);
            assert(y1 * stride <= screen_h * stride) by (nonlinear_arith)
                requires
                    y1 <= screen_h,
                    0 < stride,
            ;
        }
        composite_band(back, stride, screen_w, y0, y1, bg, wins);
        i += 1;
        assert(bands@.take(i as int).drop_last() =~= bands@.take(i - 1));
    }
    proof {
        assert(bands@.take(i as int) =~= bands@);
        bands_give_the_screen(
            start,
            stride as int,
            screen_w as int,
            bands@,
            screen_h as int,
            rows,
            bg,
            wins@,
        );
    }
}

/// The processors that took part in composing, one bit each.
pub struct CoreMask {
    pub mask: u32,
}

/// The bit of a processor; those beyond the mask have none.
pub open spec fn core_bit(cpu: u32) -> u32 {
    if cpu < 32 { 1u32 << cpu } else { 0 }
}

impl CoreMask {
    /// Notes that a processor composed a band.
    pub fn record(&mut self, cpu: u32)
        ensures
            final(self).mask == old(self).mask | core_bit(cpu),
    {
        if cpu < 32 {
            self.mask = self.mask | (1u32 << cpu);
        } else {
            let m: u32 = self.mask;
            assert(m | 0 == m) by (bit_vector);
        }
    }
}

/// Reads the mask and clears it.
pub fn take_composite_core_mask(m: &mut CoreMask) -> (r: u32)
    ensures
        r == old(m).mask,
        final(m).mask == 0,
{
    let r: u32 = m.mask;
    m.mask = 0;
    r
}

/// The processors of the first `n` bits of a mask, in order.
pub open spec fn cores_in(mask: u32, n: int) -> Seq<u32>
    decreases n,
{
    if n <= 0 {
        Seq::empty()
    } else if mask & (1u32 << ((n - 1) as u32)) != 0 {
        cores_in(mask, n - 1).push((n - 1) as u32)
    } else {
        cores_in(mask, n - 1)
    }
}

/// The processors in a mask, in order.
pub fn cores_of(mask: u32) -> (r: Vec<u32>)
    ensures
        r@ == cores_in(mask, 32),
{
    let mut out: Vec<u32> = Vec::new();
    let mut c: u32 = 0;
    while c < 32
        invariant
            c <= 32,
            out@ == cores_in(mask, c as int),
        decreases 32 - c,
    {
        if mask & (1u32 << c) != 0 {
            out.push(c);
        }
        c += 1;
    }
    out
}

} // verus!
