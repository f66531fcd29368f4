//! The renderer's state: texture atlases, the persistent canvas and what the last frame
//! consisted of.

use std::collections::BTreeMap;
use vstd::prelude::*;
use crate::pixels::{lemma_pixel_inside, lemma_pixels_apart, pixel_index};
use crate::raster::codec::{Prim, Vertex};
use crate::raster::meta::{meta_of, prim_meta, PrimMeta};
use crate::raster::rect::{DirtyRect, IRect};

verus! {

/// A texture atlas: premultiplied RGBA bytes, row by row.
pub struct Atlas {
    pub w: u32,
    pub h: u32,
    pub px: Vec<u8>,
}

impl Atlas {
    /// The atlas has pixels, and exactly the bytes of its pixels.
    pub open spec fn wf(self) -> bool {
        0 < self.w && 0 < self.h && self.px@.len() == self.w * self.h * 4
    }
}

/// The renderer: texture atlases, the canvas of the last frame and the hashes and boxes
/// of its primitives, from which the region to redraw follows.
pub struct Raster {
    /// The atlases by texture id.
    pub textures: BTreeMap<u64, Atlas>,
    /// Premultiplied RGBA bytes of the canvas.
    pub canvas: Vec<u8>,
    /// Width of the canvas in pixels.
    pub cw: u32,
    /// Height of the canvas in pixels.
    pub ch: u32,
    /// Hash and box of each primitive of the last frame.
    pub prev: Vec<PrimMeta>,
    /// The colour that the damaged region is cleared to.
    pub clear: [u8; 4],
    /// Whether a texture was set since the last frame: an atlas can change the picture
    /// without changing the geometry.
    pub tex_dirty: bool,
}

/// `v`, but at least one.
pub open spec fn at_least_one(v: u32) -> u32 {
    if v == 0 { 1 } else { v }
}

/// Whether `px` holds a whole atlas of `w` by `h` pixels.
pub open spec fn whole_atlas(w: u32, h: u32, px: Seq<u8>) -> bool {
    0 < w && 0 < h && w * h * 4 <= px.len()
}

/// Whether a patch of `w` by `h` pixels at `(ox, oy)` lies in the atlas and `px` holds it.
pub open spec fn patch_fits(a: Atlas, ox: u32, oy: u32, w: u32, h: u32, px: Seq<u8>) -> bool {
    ox + w <= a.w && oy + h <= a.h && w * h * 4 <= px.len()
}

/// `after` is `before`, `aw` pixels wide and `ah` high, with the `w` by `h` pixels at
/// `(ox, oy)` replaced by those of `px`.
pub open spec fn is_patched(
    after: Seq<u8>,
    before: Seq<u8>,
    aw: int,
    ah: int,
    ox: int,
    oy: int,
    w: int,
    h: int,
    px: Seq<u8>,
) -> bool {
    &&& after.len() == before.len()
    &&& forall|x: int, y: int, c: int|
        0 <= x < aw && 0 <= y < ah && 0 <= c < 4 ==> #[trigger] after[pixel_index(aw, x, y) + c] == if ox <= x < ox
            + w && oy <= y < oy + h {
            px[pixel_index(w, x - ox, y - oy) + c]
        } else {
            before[pixel_index(aw, x, y) + c]
        }
}

/// The primitives of a frame, each with its hash and box.
pub open spec fn frame_meta(prims: Seq<Prim>, verts: Seq<Vertex>, idx: Seq<u32>, w: i32, h: i32) -> Seq<PrimMeta> {
    Seq::new(prims.len(), |i: int| meta_of(prims[i], verts, idx, w, h))
}

/// The box around every primitive whose hash changed: where it was and where it is.
pub open spec fn changed(prev: Seq<PrimMeta>, next: Seq<PrimMeta>) -> IRect
    decreases prev.len(),
{
    if prev.len() == 0 || prev.len() != next.len() {
        IRect { x0: 0, y0: 0, x1: 0, y1: 0 }
    } else if prev.last().hash != next.last().hash {
        changed(prev.drop_last(), next.drop_last()).around(prev.last().bbox).around(next.last().bbox)
    } else {
        changed(prev.drop_last(), next.drop_last())
    }
}

/// The screen as a rectangle.
pub open spec fn screen(w: i32, h: i32) -> IRect {
    IRect { x0: 0, y0: 0, x1: w, y1: h }
}

/// The region to redraw: the whole screen where `all` holds or the number of primitives
/// changed, else the box around what changed, grown by one pixel on each side; nothing
/// where nothing changed.
pub open spec fn damage(prev: Seq<PrimMeta>, next: Seq<PrimMeta>, all: bool, w: i32, h: i32) -> Option<IRect> {
    let d = if all || prev.len() != next.len() {
        screen(w, h)
    } else {
        changed(prev, next)
    };
    if d.none() {
        None
    } else if d == screen(w, h) {
        Some(d)
    } else {
        Some(
            (IRect {
                x0: (d.x0 - 1) as i32,
                y0: (d.y0 - 1) as i32,
                x1: (d.x1 + 1) as i32,
                y1: (d.y1 + 1) as i32,
            }).within(w, h),
        )
    }
}

/// Every box of `m` lies on a screen of `w` by `h` pixels.
pub open spec fn all_on_screen(m: Seq<PrimMeta>, w: int, h: int) -> bool {
    forall|i: int| 0 <= i < m.len() ==> (#[trigger] m[i]).bbox.on_screen(w, h)
}

pub proof fn lemma_changed_on_screen(prev: Seq<PrimMeta>, next: Seq<PrimMeta>, w: int, h: int)
    requires
        all_on_screen(prev, w, h),
        all_on_screen(next, w, h),
        0 <= w,
        0 <= h,
    ensures
        changed(prev, next).on_screen(w, h),
    decreases prev.len(),
{
    if prev.len() > 0 && prev.len() == next.len() {
        assert(prev.last() == prev[prev.len() - 1]);
        assert(next.last() == next[next.len() - 1]);
        lemma_changed_on_screen(prev.drop_last(), next.drop_last(), w, h);
    }
}

/// A frame with the same primitives as the one before, and no new texture, has nothing
/// to redraw.
pub proof fn unchanged_frame_has_no_damage(m: Seq<PrimMeta>, w: i32, h: i32)
    ensures
        damage(m, m, false, w, h) is None,
    decreases m.len(),
{
    if m.len() > 0 {
        unchanged_frame_has_no_damage(m.drop_last(), w, h);
        lemma_same_changed(m);
    }
}

proof fn lemma_same_changed(m: Seq<PrimMeta>)
    ensures
        changed(m, m) == (IRect { x0: 0, y0: 0, x1: 0, y1: 0 }),
    decreases m.len(),
{
    if m.len() > 0 {
        lemma_same_changed(m.drop_last());
    }
}

pub proof fn lemma_changed_covers(prev: Seq<PrimMeta>, next: Seq<PrimMeta>, i: int, x: int, y: int)
    requires
        prev.len() == next.len(),
        0 <= i < prev.len(),
        prev[i].hash != next[i].hash,
        prev[i].bbox.has(x, y) || next[i].bbox.has(x, y),
    ensures
        changed(prev, next).has(x, y),
    decreases prev.len(),
{
    if i < prev.len() - 1 {
        lemma_changed_covers(prev.drop_last(), next.drop_last(), i, x, y);
    }
}

/// The region to redraw has every pixel of the boxes in which a changed primitive stood before
/// or stands now.
pub proof fn damage_covers_changes(
    prev: Seq<PrimMeta>,
    next: Seq<PrimMeta>,
    all: bool,
    w: i32,
    h: i32,
    i: int,
    x: int,
    y: int,
)
    requires
        0 < w < i32::MAX,
        0 < h < i32::MAX,
        prev.len() == next.len(),
        all_on_screen(prev, w as int, h as int),
        all_on_screen(next, w as int, h as int),
        0 <= i < prev.len(),
        prev[i].hash != next[i].hash,
        prev[i].bbox.has(x, y) || next[i].bbox.has(x, y),
    ensures
        damage(prev, next, all, w, h) is Some,
        damage(prev, next, all, w, h)->0.has(x, y),
{
    lemma_changed_covers(prev, next, i, x, y);
    lemma_changed_on_screen(prev, next, w as int, h as int);
    assert(prev[i].bbox.on_screen(w as int, h as int));
    assert(next[i].bbox.on_screen(w as int, h as int));
}

impl Raster {
    /// The canvas has exactly the bytes of its pixels, or none yet; the boxes of the last
    /// frame lie on it; the atlases are whole.
    pub open spec fn wf(self) -> bool {
        &&& self.canvas@.len() == 0 || self.canvas@.len() == self.cw * self.ch * 4
        &&& self.canvas@.len() > 0 ==> 0 < self.cw && 0 < self.ch && self.cw * self.ch * 4 <= u32::MAX
        &&& self.canvas@.len() > 0 ==> all_on_screen(self.prev@, self.cw as int, self.ch as int)
        &&& forall|id: u64| #[trigger] self.textures@.contains_key(id) ==> self.textures@[id].wf()
    }

    /// A renderer without textures, canvas or last frame.
    pub fn new(clear: [u8; 4]) -> (r: Self)
        ensures
            r.wf(),
            r.textures@ == Map::<u64, Atlas>::empty(),
            r.canvas@ == Seq::<u8>::empty(),
            r.cw == 0,
            r.ch == 0,
            r.prev@ == Seq::<PrimMeta>::empty(),
            r.clear == clear,
            !r.tex_dirty,
    {
        Raster {
            textures: BTreeMap::new(),
            canvas: Vec::new(),
            cw: 0,
            ch: 0,
            prev: Vec::new(),
            clear,
            tex_dirty: false,
        }
    }

    /// The bytes of the canvas.
    pub fn canvas(&self) -> (r: &[u8])
        ensures
            r@ == self.canvas@,
    {
        self.canvas.as_slice()
    }

    /// What a frame hands back once it was drawn into the canvas: the canvas, as `canvas` gives
    /// it from then on, and the region that was redrawn.
    pub fn rendered(&self, damage: Option<(i32, i32, i32, i32)>) -> (r: (&[u8], DirtyRect))
        requires
            self.wf(),
            damage matches Some(d) ==> 0 <= d.0 <= d.2 && 0 <= d.1 <= d.3,
        ensures
            r.0@ == self.canvas@,
            r.0@.len() > 0 ==> r.0@.len() == self.cw * self.ch * 4,
            match damage {
                None => r.1 == (DirtyRect { x: 0, y: 0, w: 0, h: 0 }),
                Some(d) => r.1.x == d.0 && r.1.y == d.1 && r.1.w == d.2 - d.0 && r.1.h == d.3 - d.1,
            },
    {
        (self.canvas(), dirty_rect(damage))
    }

    /// Sets, replaces or patches an atlas. Without a position, `px` is a whole atlas of
    /// `w` by `h` pixels; with one, it is a patch of the atlas that is there. What does
    /// not fit is dropped: an atlas without pixels, bytes that are too short, a patch
    /// that leaves the atlas, a patch of no atlas.
    pub fn set_texture(&mut self, id: u64, pos: Option<(u32, u32)>, w: u32, h: u32, px: &[u8])
        requires
            old(self).wf(),
        ensures
            final(self).wf(),
            final(self).canvas == old(self).canvas,
            final(self).cw == old(self).cw,
            final(self).ch == old(self).ch,
            final(self).prev == old(self).prev,
            final(self).clear == old(self).clear,
            final(self).tex_dirty,
            forall|k: u64| k != id ==> (#[trigger] final(self).textures@.contains_key(k) <==> old(
                self,
            ).textures@.contains_key(k)) && (old(self).textures@.contains_key(k) ==> final(self).textures@[k] == old(
                self,
            ).textures@[k]),
            match pos {
                None => if whole_atlas(w, h, px@) {
                    &&& final(self).textures@.contains_key(id)
                    &&& final(self).textures@[id].w == w
                    &&& final(self).textures@[id].h == h
                    &&& final(self).textures@[id].px@ == px@.subrange(0, w * h * 4)
                } else {
                    final(self).textures@ == old(self).textures@
                },
                Some((ox, oy)) => if old(self).textures@.contains_key(id) && patch_fits(
                    old(self).textures@[id],
                    ox,
                    oy,
                    w,
                    h,
                    px@,
                ) {
                    &&& final(self).textures@.contains_key(id)
                    &&& final(self).textures@[id].w == old(self).textures@[id].w
                    &&& final(self).textures@[id].h == old(self).textures@[id].h
                    &&& is_patched(
                        final(self).textures@[id].px@,
                        old(self).textures@[id].px@,
                        old(self).textures@[id].w as int,
                        old(self).textures@[id].h as int,
                        ox as int,
                        oy as int,
                        w as int,
                        h as int,
                        px@,
                    )
                } else {
                    final(self).textures@ == old(self).textures@
                },
            },
    {
        self.tex_dirty = true;
        match pos {
            Some((ox, oy)) => {
                match self.textures.remove(&id) {
                    None => {
                        assert(self.textures@ =~= old(self).textures@);
                    },
                    Some(mut atlas) => {
                        let fits: bool = ox as u64 + w as u64 <= atlas.w as u64 && oy as u64 + h as u64
                            <= atlas.h as u64 && enough(w, h, px.len());
                        if fits {
                            patch(&mut atlas, ox, oy, w, h, px);
                        }
                        self.textures.insert(id, atlas);
                        assert(!fits ==> self.textures@ =~= old(self).textures@);
                    },
                }
            },
            None => {
                if w > 0 && h > 0 && enough(w, h, px.len()) {
                    assert(w * h * 4 == (w * h) * 4);
                    let n: usize = (w as u128 * h as u128 * 4) as usize;
                    let mut buf: Vec<u8> = Vec::with_capacity(n);
                    let mut i: usize = 0;
                    while i < n
                        invariant
                            i <= n <= px.len(),
                            buf@ == px@.subrange(0, i as int),
                        decreases n - i,
                    {
                        buf.push(px[i]);
                        i += 1;
                        assert(px@.subrange(0, i as int) =~= px@.subrange(0, i - 1).push(px@[i - 1]));
                    }
                    self.textures.insert(id, Atlas { w, h, px: buf });
                }
            },
        }
    }

    /// Brings the canvas to the size of the frame and tells the region to redraw, as
    /// `(x0, y0, x1, y1)`; nothing where nothing changed.
    pub fn plan_damage(&mut self, verts: &[Vertex], idx: &[u32], prims: &[Prim], width: u32, height: u32) -> (r: Option<
        (i32, i32, i32, i32),
    >)
        requires
            old(self).wf(),
            at_least_one(width) * at_least_one(height) * 4 <= u32::MAX,
        ensures
            final(self).wf(),
            final(self).cw == at_least_one(width),
            final(self).ch == at_least_one(height),
            final(self).textures == old(self).textures,
            final(self).clear == old(self).clear,
            !final(self).tex_dirty,
            final(self).canvas@.len() == at_least_one(width) * at_least_one(height) * 4,
            final(self).canvas@ == if old(self).kept(width, height) {
                old(self).canvas@
            } else {
                Seq::new((at_least_one(width) * at_least_one(height) * 4) as nat, |i: int| 0u8)
            },
            final(self).prev@ == frame_meta(
                prims@,
                verts@,
                idx@,
                at_least_one(width) as i32,
                at_least_one(height) as i32,
            ),
            match damage(
                old(self).prev@,
                final(self).prev@,
                !old(self).kept(width, height) || old(self).tex_dirty,
                at_least_one(width) as i32,
                at_least_one(height) as i32,
            ) {
                None => r is None,
                Some(d) => r == Some((d.x0, d.y0, d.x1, d.y1)) && !d.none() && d.on_screen(
                    at_least_one(width) as int,
                    at_least_one(height) as int,
                ),
            },
    {
        let w: u32 = if width == 0 { 1 } else { width };
        let h: u32 = if height == 0 { 1 } else { height };
        proof {
            assert(w * h >= w && w * h >= h) by (nonlinear_arith)
                requires
                    w >= 1,
                    h >= 1,
            ;
        }
        let iw: i32 = w as i32;
        let ih: i32 = h as i32;
        let realloc: bool = self.cw != w || self.ch != h || self.canvas.is_empty();
        if realloc {
            self.cw = w;
            self.ch = h;
            let n: usize = (w as u64 * h as u64 * 4) as usize;
            self.canvas = vec![0u8; n];
            assert(self.canvas@ =~= Seq::new((w * h * 4) as nat, |i: int| 0u8));
        }
        let mut meta: Vec<PrimMeta> = Vec::with_capacity(prims.len());
        let mut i: usize = 0;
        let ghost all_meta = frame_meta(prims@, verts@, idx@, iw, ih);
        while i < prims.len()
            invariant
                i <= prims.len(),
                0 < iw,
                0 < ih,
                all_meta == frame_meta(prims@, verts@, idx@, iw, ih),
                meta@ == all_meta.take(i as int),
                all_on_screen(meta@, iw as int, ih as int),
            decreases prims.len() - i,
        {
            let m = prim_meta(&prims[i], verts, idx, iw, ih);
            meta.push(m);
            i += 1;
            assert(meta@ =~= all_meta.take(i as int));
        }
        assert(meta@ =~= all_meta);
        let full = IRect { x0: 0, y0: 0, x1: iw, y1: ih };
        let mut damage = IRect::empty();
        if realloc || self.tex_dirty || self.prev.len() != meta.len() {
            damage = full;
        } else {
            let mut k: usize = 0;
            while k < meta.len()
                invariant
                    k <= meta.len(),
                    meta.len() == self.prev.len(),
                    damage == changed(self.prev@.take(k as int), meta@.take(k as int)),
                decreases meta.len() - k,
            {
                let a = self.prev[k];
                let b = meta[k];
                if a.hash != b.hash {
                    damage = damage.union(a.bbox).union(b.bbox);
                }
                k += 1;
                assert(self.prev@.take(k as int).drop_last() =~= self.prev@.take(k - 1));
                assert(meta@.take(k as int).drop_last() =~= meta@.take(k - 1));
            }
            assert(self.prev@.take(k as int) =~= self.prev@);
            assert(meta@.take(k as int) =~= meta@);
            proof {
                lemma_changed_on_screen(self.prev@, meta@, iw as int, ih as int);
            }
        }
        let is_full: bool = damage.x0 == 0 && damage.y0 == 0 && damage.x1 == iw && damage.y1 == ih;
        if !damage.is_empty() && !is_full {
            damage = (IRect {
                x0: damage.x0 - 1,
                y0: damage.y0 - 1,
                x1: damage.x1 + 1,
                y1: damage.y1 + 1,
            }).clamp(iw, ih);
        }
        self.prev = meta;
        self.tex_dirty = false;
        if damage.is_empty() {
            return None;
        }
        Some((damage.x0, damage.y0, damage.x1, damage.y1))
    }

    /// Whether a frame of that size keeps the canvas.
    pub open spec fn kept(self, width: u32, height: u32) -> bool {
        self.cw == at_least_one(width) && self.ch == at_least_one(height) && self.canvas@.len() > 0
    }
}

/// Whether `len` bytes are enough for `w` by `h` pixels.
fn enough(w: u32, h: u32, len: usize) -> (r: bool)
    ensures
        r == (w * h * 4 <= len),
{
    assert(0 <= w * h <= 0xffff_ffff * 0xffff_ffff) by (nonlinear_arith)
        requires
            0 <= w <= 0xffff_ffff,
            0 <= h <= 0xffff_ffff,
    ;
    let need: u128 = w as u128 * h as u128 * 4;
    need <= len as u128
}

/// Copies a patch into an atlas.
fn patch(atlas: &mut Atlas, ox: u32, oy: u32, w: u32, h: u32, px: &[u8])
    requires
        old(atlas).wf(),
        patch_fits(*old(atlas), ox, oy, w, h, px@),
    ensures
        final(atlas).wf(),
        final(atlas).w == old(atlas).w,
        final(atlas).h == old(atlas).h,
        is_patched(
            final(atlas).px@,
            old(atlas).px@,
            old(atlas).w as int,
            old(atlas).h as int,
            ox as int,
            oy as int,
            w as int,
            h as int,
            px@,
        ),
{
    let aw: usize = atlas.w as usize;
    let pw: usize = w as usize;
    let ph: usize = h as usize;
    let x0: usize = ox as usize;
    let y0: usize = oy as usize;
    let ghost start = atlas.px@;
    let ghost ah = atlas.h as int;
    let mut row: usize = 0;
    while row < ph
        invariant
            row <= ph,
            aw == atlas.w,
            ah == atlas.h,
            0 < aw,
            0 < ah,
            atlas.w == old(atlas).w,
            atlas.h == old(atlas).h,
            x0 + pw <= aw,
            y0 + ph <= ah,
            atlas.px@.len() == aw * ah * 4,
            start.len() == aw * ah * 4,
            pw * ph * 4 <= px.len(),
            is_patched(atlas.px@, start, aw as int, ah, x0 as int, y0 as int, pw as int, row as int, px@),
        decreases ph - row,
    {
        let mut col: usize = 0;
        while col < pw
            invariant
                col <= pw,
                row < ph,
                aw == atlas.w,
                ah == atlas.h,
                0 < aw,
                0 < ah,
                atlas.w == old(atlas).w,
                atlas.h == old(atlas).h,
                x0 + pw <= aw,
                y0 + ph <= ah,
                atlas.px@.len() == aw * ah * 4,
                start.len() == aw * ah * 4,
                pw * ph * 4 <= px.len(),
                forall|x: int, y: int, c: int|
                    0 <= x < aw && 0 <= y < ah && 0 <= c < 4 ==> #[trigger] atlas.px@[pixel_index(aw as int, x, y) + c]
                        == if x0 <= x < x0 + pw && y0 <= y < y0 + row || x0 <= x < x0 + col && y == y0 + row {
                        px@[pixel_index(pw as int, x - x0, y - y0) + c]
                    } else {
                        start[pixel_index(aw as int, x, y) + c]
                    },
            decreases pw - col,
        {
            proof {
                assert(atlas.px.len() == aw * ah * 4);
                lemma_pixel_inside(aw as int, ah, x0 + col, y0 + row);
                lemma_pixel_inside(pw as int, ph as int, col as int, row as int);
            }
            let dst: usize = ((y0 + row) * aw + (x0 + col)) * 4;
            let src: usize = (row * pw + col) * 4;
            let ghost before = atlas.px@;
            atlas.px[dst] = px[src];
            atlas.px[dst + 1] = px[src + 1];
            atlas.px[dst + 2] = px[src + 2];
            atlas.px[dst + 3] = px[src + 3];
            proof {
                assert forall|x: int, y: int, c: int| 0 <= x < aw && 0 <= y < ah && 0 <= c < 4 implies
                    #[trigger] atlas.px@[pixel_index(aw as int, x, y) + c] == if x0 <= x < x0 + pw && y0 <= y < y0
                    + row || x0 <= x < x0 + col + 1 && y == y0 + row {
                    px@[pixel_index(pw as int, x - x0, y - y0) + c]
                } else {
                    start[pixel_index(aw as int, x, y) + c]
                } by {
                    lemma_pixel_inside(aw as int, ah, x, y);
                    assert(before[pixel_index(aw as int, x, y) + c] == if x0 <= x < x0 + pw && y0 <= y < y0 + row
                        || x0 <= x < x0 + col && y == y0 + row {
                        px@[pixel_index(pw as int, x - x0, y - y0) + c]
                    } else {
                        start[pixel_index(aw as int, x, y) + c]
                    });
                    if x != x0 + col || y != y0 + row {
                        lemma_pixels_apart(aw as int, x, y, x0 + col, y0 + row);
                    }
                }
            }
            col += 1;
        }
        row += 1;
    }
}

/// What is told of a damaged region: its corner and its size, nothing where there is none.
pub fn dirty_rect(damage: Option<(i32, i32, i32, i32)>) -> (r: DirtyRect)
    requires
        damage matches Some(d) ==> 0 <= d.0 <= d.2 && 0 <= d.1 <= d.3,
    ensures
        match damage {
            None => r == (DirtyRect { x: 0, y: 0, w: 0, h: 0 }),
            Some(d) => r.x == d.0 && r.y == d.1 && r.w == d.2 - d.0 && r.h == d.3 - d.1,
        },
{
    match damage {
        None => DirtyRect { x: 0, y: 0, w: 0, h: 0 },
        Some((x0, y0, x1, y1)) => DirtyRect { x: x0 as u32, y: y0 as u32, w: (x1 - x0) as u32, h: (y1 - y0) as u32 },
    }
}

} // verus!
