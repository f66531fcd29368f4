//! The renderer: wire format, textures, damage and what is to be drawn.

use ruos::raster::band::{fill_rect, Band};
use ruos::raster::codec::{
    decode_indices, decode_prims, decode_verts, encode_indices, encode_prims, encode_verts, Prim, Vertex,
    INDEX_WIRE_SIZE, PRIM_WIRE_SIZE, VERTEX_WIRE_SIZE,
};
use ruos::raster::float;
use ruos::raster::rect::{clamp_i32, DirtyRect, IRect};
use ruos::raster::renderer::{dirty_rect, Raster};
use ruos::raster::triangle::{raster_band, raster_tri, Sign};

const CLEAR: [u8; 4] = [0x1e, 0x1e, 0x1e, 0xff];

/// A white opaque texel on texture 0.
fn white_texel(r: &mut Raster) {
    r.set_texture(0, None, 1, 1, &[255, 255, 255, 255]);
}

fn vertex(x: f32, y: f32, color: u32) -> Vertex {
    Vertex { x: x.to_bits(), y: y.to_bits(), u: 0.0f32.to_bits(), v: 0.0f32.to_bits(), color }
}

/// A rectangle of two triangles, appended to `verts` and `idx`; its range of indices.
fn rect_mesh(verts: &mut Vec<Vertex>, idx: &mut Vec<u32>, r: (f32, f32, f32, f32), color: u32) -> (u32, u32) {
    let base = verts.len() as u32;
    verts.push(vertex(r.0, r.1, color));
    verts.push(vertex(r.2, r.1, color));
    verts.push(vertex(r.2, r.3, color));
    verts.push(vertex(r.0, r.3, color));
    let i0 = idx.len() as u32;
    idx.extend_from_slice(&[base, base + 1, base + 2, base, base + 2, base + 3]);
    (i0, idx.len() as u32)
}

fn rgba(r: u8, g: u8, b: u8, a: u8) -> u32 {
    u32::from_le_bytes([r, g, b, a])
}

fn bits(clip: [f32; 4]) -> [u32; 4] {
    [clip[0].to_bits(), clip[1].to_bits(), clip[2].to_bits(), clip[3].to_bits()]
}

fn pixel(canvas: &[u8], w: u32, x: u32, y: u32) -> [u8; 4] {
    let i = ((y * w + x) * 4) as usize;
    [canvas[i], canvas[i + 1], canvas[i + 2], canvas[i + 3]]
}

/// A background and a small rectangle at `(sx, sy)`.
fn scene(sx: f32, sy: f32, col: u32) -> (Vec<Vertex>, Vec<u32>, Vec<Prim>) {
    let clip = bits([0.0, 0.0, 64.0, 64.0]);
    let mut verts = Vec::new();
    let mut idx = Vec::new();
    let (b0, b1) = rect_mesh(&mut verts, &mut idx, (0.0, 0.0, 64.0, 64.0), rgba(10, 20, 30, 255));
    let (r0, r1) = rect_mesh(&mut verts, &mut idx, (sx, sy, sx + 8.0, sy + 8.0), col);
    let prims = vec![
        Prim { clip, tex_id: 0, idx0: b0, idx1: b1 },
        Prim { clip, tex_id: 0, idx0: r0, idx1: r1 },
    ];
    (verts, idx, prims)
}

/// A background, several rectangles and a translucent one.
fn rich_scene(w: f32, h: f32) -> (Vec<Vertex>, Vec<u32>, Vec<Prim>) {
    let clip = bits([0.0, 0.0, w, h]);
    let mut verts = Vec::new();
    let mut idx = Vec::new();
    let mut prims = Vec::new();
    let (b0, b1) = rect_mesh(&mut verts, &mut idx, (0.0, 0.0, w, h), rgba(10, 20, 30, 255));
    prims.push(Prim { clip, tex_id: 0, idx0: b0, idx1: b1 });
    for i in 0..6u32 {
        let x = 4.0 + i as f32 * 9.0;
        let color = rgba(200, (30 + i * 20) as u8, 80, 255);
        let (r0, r1) = rect_mesh(&mut verts, &mut idx, (x, x, x + 7.0, x + 30.0), color);
        prims.push(Prim { clip, tex_id: 0, idx0: r0, idx1: r1 });
    }
    let (s0, s1) = rect_mesh(&mut verts, &mut idx, (8.0, 10.0, w - 8.0, 50.0), rgba(60, 30, 90, 128));
    prims.push(Prim { clip, tex_id: 0, idx0: s0, idx1: s1 });
    (verts, idx, prims)
}

/// Width and height of a damaged region; nothing is `(0, 0)`.
fn size(d: Option<(i32, i32, i32, i32)>) -> (u32, u32) {
    let r = dirty_rect(d);
    (r.w, r.h)
}

#[test]
fn codec_roundtrip_is_identity() {
    let (verts, idx, prims) = rich_scene(64.0, 64.0);
    let dv = decode_verts(&encode_verts(&verts));
    let di = decode_indices(&encode_indices(&idx));
    let dp = decode_prims(&encode_prims(&prims));
    assert_eq!(dv.len(), verts.len());
    assert_eq!(di.len(), idx.len());
    assert_eq!(dp.len(), prims.len());
    for (a, b) in verts.iter().zip(dv.iter()) {
        assert_eq!((a.x, a.y, a.u, a.v, a.color), (b.x, b.y, b.u, b.v, b.color));
    }
    assert_eq!(idx, di);
    for (a, b) in prims.iter().zip(dp.iter()) {
        assert_eq!((a.clip, a.tex_id, a.idx0, a.idx1), (b.clip, b.tex_id, b.idx0, b.idx1));
    }
}

#[test]
fn malformed_texture_does_not_panic() {
    let mut r = Raster::new(CLEAR);
    r.set_texture(1, None, 4, 4, &[0u8; 4]);
    assert!(r.textures.get(&1).is_none(), "short full atlas must be dropped");
    r.set_texture(2, None, 0, 0, &[]);
    assert!(r.textures.get(&2).is_none());
    r.set_texture(3, None, u32::MAX, u32::MAX, &[1, 2, 3, 4]);
    assert!(r.textures.get(&3).is_none());
    r.set_texture(4, None, 2, 2, &[9u8; 16]);
    let before = r.textures.get(&4).unwrap().px.clone();
    r.set_texture(4, Some((1, 1)), 4, 4, &[7u8; 64]);
    assert_eq!(r.textures.get(&4).unwrap().px, before, "out-of-fit patch must be dropped");
}

#[test]
fn float_ops_match_std_bit_identical() {
    let mut vals: Vec<f32> = Vec::new();
    let mut x = -2000.0f32;
    while x <= 2000.0 {
        vals.push(x);
        x += 0.125;
    }
    for &k in &[0.0f32, -0.0, 0.5, -0.5, 0.49999997, 0.50000006, 1.5, -1.5, 2.5, -2.5] {
        vals.push(k);
    }
    for &k in &[8_388_608.0f32, 8_388_607.5, 16_777_216.0, -16_777_216.0, 123_456.78] {
        vals.push(k);
    }
    for v in vals {
        assert_eq!(float::floor(v.to_bits()), f32::floor(v).to_bits(), "floor({v}) mismatch");
        assert_eq!(float::ceil(v.to_bits()), f32::ceil(v).to_bits(), "ceil({v}) mismatch");
        assert_eq!(float::round(v.to_bits()), f32::round(v).to_bits(), "round({v}) mismatch");
    }
}

#[test]
fn unchanged_scene_yields_empty_dirty() {
    let (v, i, p) = scene(10.0, 10.0, rgba(50, 60, 70, 255));
    let mut r = Raster::new(CLEAR);
    white_texel(&mut r);
    let d1 = size(r.plan_damage(&v, &i, &p, 64, 64));
    assert_eq!((d1.0, d1.1), (64, 64));
    let d2 = size(r.plan_damage(&v, &i, &p, 64, 64));
    assert_eq!((d2.0, d2.1), (0, 0));
}

#[test]
fn texture_patch_forces_full_damage() {
    let (v, i, p) = scene(10.0, 10.0, rgba(50, 60, 70, 255));
    let mut r = Raster::new(CLEAR);
    white_texel(&mut r);
    let d1 = size(r.plan_damage(&v, &i, &p, 64, 64));
    assert_eq!((d1.0, d1.1), (64, 64));
    let d2 = size(r.plan_damage(&v, &i, &p, 64, 64));
    assert_eq!((d2.0, d2.1), (0, 0));
    r.set_texture(0, Some((0, 0)), 1, 1, &[200, 200, 200, 255]);
    let d3 = size(r.plan_damage(&v, &i, &p, 64, 64));
    assert_eq!((d3.0, d3.1), (64, 64), "a texture patch forces full damage");
}

/// The damaged pixels are cleared and no triangle is left to draw, whatever the bytes.
fn plan_wire(vb: &[u8], ib: &[u8], pb: &[u8], w: u32, h: u32) -> (Vec<u8>, usize) {
    let mut r = Raster::new(CLEAR);
    white_texel(&mut r);
    let (verts, idx, prims) = (decode_verts(vb), decode_indices(ib), decode_prims(pb));
    let damage = r.plan_damage(&verts, &idx, &prims, w, h);
    let jobs = match damage {
        Some(d) => {
            let mut band = Band { px: &mut r.canvas, width: w as i32, y0: 0, y1: h as i32 };
            raster_band(&mut band, d, CLEAR, &verts, &idx, &prims).len()
        }
        None => 0,
    };
    (r.canvas().to_vec(), jobs)
}

#[test]
fn decode_is_panic_free_on_garbage() {
    let (canvas, _) = plan_wire(&[1, 2, 3], &[9, 9, 9, 9, 9], &[0xff; 10], 16, 16);
    assert_eq!(canvas.len(), 16 * 16 * 4, "should still produce a canvas");
    let verts: Vec<Vertex> = Vec::new();
    let idx: Vec<u32> = vec![0, 1, 2, 99, 100, 101];
    let clip = bits([0.0, 0.0, 16.0, 16.0]);
    let prims = vec![
        Prim { clip, tex_id: 0, idx0: 100, idx1: 200 },
        Prim { clip, tex_id: 0, idx0: 0, idx1: 6 },
        Prim { clip, tex_id: 0, idx0: 5, idx1: 2 },
    ];
    let (vb, ib, pb) = (encode_verts(&verts), encode_indices(&idx), encode_prims(&prims));
    let (canvas2, jobs) = plan_wire(&vb, &ib, &pb, 16, 16);
    assert_eq!(pixel(&canvas2, 16, 8, 8), CLEAR);
    assert_eq!(jobs, 0);
}

#[test]
fn wire_records_have_fixed_sizes() {
    let (verts, idx, prims) = scene(20.0, 20.0, rgba(255, 0, 0, 255));
    assert_eq!(encode_verts(&verts).len(), verts.len() * VERTEX_WIRE_SIZE);
    assert_eq!(encode_indices(&idx).len(), idx.len() * INDEX_WIRE_SIZE);
    assert_eq!(encode_prims(&prims).len(), prims.len() * PRIM_WIRE_SIZE);
    assert_eq!(encode_indices(&[0x0403_0201]), vec![1, 2, 3, 4]);
    assert_eq!(decode_indices(&[1, 2, 3, 4, 5]), vec![0x0403_0201]);
}

#[test]
fn moved_rectangle_damages_both_places_only() {
    let (va, ia, pa) = scene(2.0, 2.0, rgba(255, 0, 0, 255));
    let (vb, ib, pb) = scene(40.0, 40.0, rgba(255, 0, 0, 255));
    let mut r = Raster::new(CLEAR);
    white_texel(&mut r);
    assert_eq!(r.plan_damage(&va, &ia, &pa, 64, 64), Some((0, 0, 64, 64)));
    assert_eq!(r.plan_damage(&vb, &ib, &pb, 64, 64), Some((1, 1, 49, 49)));
}

#[test]
fn recoloured_rectangle_damages_its_box() {
    let (va, ia, pa) = scene(20.0, 20.0, rgba(255, 0, 0, 255));
    let (vb, ib, pb) = scene(20.0, 20.0, rgba(0, 255, 0, 255));
    let mut r = Raster::new(CLEAR);
    white_texel(&mut r);
    r.plan_damage(&va, &ia, &pa, 64, 64);
    assert_eq!(r.plan_damage(&vb, &ib, &pb, 64, 64), Some((19, 19, 29, 29)));
}

#[test]
fn damage_is_told_by_corner_and_size() {
    assert_eq!(dirty_rect(Some((1, 2, 49, 50))), DirtyRect { x: 1, y: 2, w: 48, h: 48 });
    assert_eq!(dirty_rect(None), DirtyRect { x: 0, y: 0, w: 0, h: 0 });
}

#[test]
fn resize_damages_everything() {
    let (v, i, p) = scene(10.0, 10.0, rgba(50, 60, 70, 255));
    let mut r = Raster::new(CLEAR);
    r.plan_damage(&v, &i, &p, 64, 64);
    assert_eq!(r.plan_damage(&v, &i, &p, 32, 16), Some((0, 0, 32, 16)));
    assert_eq!(r.canvas().len(), 32 * 16 * 4);
    assert_eq!(r.plan_damage(&v, &i, &p, 0, 0), Some((0, 0, 1, 1)));
}

#[test]
fn patch_replaces_its_pixels_only() {
    let mut r = Raster::new(CLEAR);
    r.set_texture(7, None, 3, 2, &[1u8; 24]);
    r.set_texture(7, Some((1, 1)), 2, 1, &[5, 6, 7, 8, 9, 10, 11, 12]);
    let px = &r.textures.get(&7).unwrap().px;
    assert_eq!(px[..16], [1u8; 16]);
    assert_eq!(px[16..24], [5, 6, 7, 8, 9, 10, 11, 12]);
}

#[test]
fn band_clears_inside_the_damage_only() {
    let mut bytes = vec![0u8; 4 * 4 * 4];
    let mut band = Band { px: &mut bytes, width: 4, y0: 10, y1: 14 };
    fill_rect(&mut band, (1, 11, 3, 20), CLEAR);
    assert_eq!(band.get(1, 11), CLEAR);
    assert_eq!(band.get(2, 13), CLEAR);
    assert_eq!(band.get(0, 11), [0; 4]);
    assert_eq!(band.get(1, 10), [0; 4]);
    band.put(0, 10, [1, 2, 3, 4]);
    assert_eq!(band.get(0, 10), [1, 2, 3, 4]);
}

#[test]
fn shared_diagonal_is_drawn_once() {
    let clip = IRect { x0: 0, y0: 0, x1: 8, y1: 8 };
    let (a, b) = (vertex(0.0, 0.0, 0), vertex(8.0, 0.0, 0));
    let (c, d) = (vertex(8.0, 8.0, 0), vertex(0.0, 8.0, 0));
    let upper = raster_tri(Sign::Positive, clip, 0, 8, &a, &b, &c).unwrap();
    let lower = raster_tri(Sign::Positive, clip, 0, 8, &a, &c, &d).unwrap();
    let on_upper = upper.covers(Sign::Positive, Sign::Zero, Sign::Positive);
    let on_lower = lower.covers(Sign::Positive, Sign::Positive, Sign::Zero);
    assert_ne!(on_upper, on_lower);
    assert!(upper.covers(Sign::Positive, Sign::Positive, Sign::Positive));
    assert!(!upper.covers(Sign::Positive, Sign::Negative, Sign::Positive));
    assert!(!upper.covers(Sign::Undefined, Sign::Positive, Sign::Positive));
    assert!(raster_tri(Sign::Zero, clip, 0, 8, &a, &b, &c).is_none());
    assert!(raster_tri(Sign::Positive, clip, 8, 8, &a, &b, &c).is_none());
    assert_eq!(upper.bbox, IRect { x0: 0, y0: 0, x1: 8, y1: 8 });
    assert!(upper.uv_const);
}

#[test]
fn float_comparisons_match_the_hardware() {
    let vals = [0.0f32, -0.0, 1.0, -1.0, f32::MAX, f32::MIN, f32::INFINITY, f32::NEG_INFINITY, f32::NAN, 1.0e-40];
    for &a in &vals {
        for &b in &vals {
            assert_eq!(float::lt(a.to_bits(), b.to_bits()), a < b, "{a} < {b}");
            assert_eq!(float::eq(a.to_bits(), b.to_bits()), a == b, "{a} == {b}");
            if !a.is_nan() || !b.is_nan() {
                assert_eq!(f32::from_bits(float::min(a.to_bits(), b.to_bits())), a.min(b));
                assert_eq!(f32::from_bits(float::max(a.to_bits(), b.to_bits())), a.max(b));
            }
        }
        assert_eq!(float::floor_i32(a.to_bits()), a.floor() as i32);
        assert_eq!(float::ceil_i32(a.to_bits()), a.ceil() as i32);
        if !a.is_nan() {
            assert_eq!(float::trunc(a.to_bits()), a.trunc().to_bits());
        }
    }
    for v in [0, 1, -1, 7, 16_777_217, i32::MAX, i32::MIN] {
        assert_eq!(float::from_i32(v), (v as f32).to_bits());
    }
}

#[test]
fn rectangles_join_and_stay_on_screen() {
    let a = IRect { x0: -3, y0: 2, x1: 5, y1: 9 };
    let b = IRect { x0: 7, y0: 1, x1: 20, y1: 3 };
    assert_eq!(a.union(b), IRect { x0: -3, y0: 1, x1: 20, y1: 9 });
    assert_eq!(a.union(IRect::empty()), a);
    assert_eq!(a.clamp(4, 6), IRect { x0: 0, y0: 2, x1: 4, y1: 6 });
    assert!(IRect::empty().is_empty());
    assert_eq!(clamp_i32(9, 0, 4), 4);
    assert_eq!(clamp_i32(-9, 0, 4), 0);
}

#[test]
fn bands_draw_what_one_band_draws() {
    let (mut verts, mut idx) = (Vec::new(), Vec::new());
    let (idx0, idx1) = rect_mesh(&mut verts, &mut idx, (1.0, 2.0, 7.0, 7.5), 0xff00_00ff);
    let prims = [Prim { clip: bits([0.0, 0.0, 8.0, 8.0]), tex_id: 0, idx0, idx1 }];
    let damage = (1, 1, 7, 6);
    // Each triangle leaves its own mark in the pixels of its box.
    let draw = |px: &mut [u8], y0: i32, y1: i32| {
        let mut band = Band { px, width: 8, y0, y1 };
        let jobs = raster_band(&mut band, damage, CLEAR, &verts, &idx, &prims);
        for (n, j) in jobs.iter().enumerate() {
            let (a, b, c) = (&verts[j.a as usize], &verts[j.b as usize], &verts[j.c as usize]);
            if let Some(s) = raster_tri(Sign::Positive, j.clip, y0, y1, a, b, c) {
                for y in s.bbox.y0..s.bbox.y1 {
                    for x in s.bbox.x0..s.bbox.x1 {
                        let old = band.get(x, y);
                        band.put(x, y, [old[0] ^ x as u8, old[1] ^ y as u8, old[2].wrapping_add(n as u8 + 1), old[3]]);
                    }
                }
            }
        }
    };
    let start: Vec<u8> = (0..8 * 8 * 4).map(|i| (i * 7) as u8).collect();
    let mut whole = start.clone();
    draw(&mut whole, 0, 8);
    for cut in 0..=8usize {
        let mut parts = start.clone();
        let (top, bottom) = parts.split_at_mut(cut * 8 * 4);
        draw(bottom, cut as i32, 8);
        draw(top, 0, cut as i32);
        assert_eq!(parts, whole, "cut at {cut}");
    }
    assert_ne!(whole, start);
    for (i, (now, then)) in whole.iter().zip(&start).enumerate() {
        let (x, y) = (i / 4 % 8, i / 32);
        if !((1..7).contains(&x) && (1..6).contains(&y)) {
            assert_eq!(now, then, "pixel {x},{y}");
        }
    }
}

#[test]
fn canvas_is_what_a_frame_hands_back() {
    let mut r = Raster::new(CLEAR);
    let (mut verts, mut idx) = (Vec::new(), Vec::new());
    let (idx0, idx1) = rect_mesh(&mut verts, &mut idx, (1.0, 1.0, 3.0, 3.0), 0xff00_00ff);
    let prims = [Prim { clip: bits([0.0, 0.0, 4.0, 4.0]), tex_id: 0, idx0, idx1 }];
    for (n, dirty) in [DirtyRect { x: 0, y: 0, w: 4, h: 5 }, DirtyRect { x: 0, y: 0, w: 0, h: 0 }].into_iter().enumerate() {
        let damage = r.plan_damage(&verts, &idx, &prims, 4, 5);
        if damage.is_some() {
            r.canvas[n] = 9;
        }
        let (px, told) = r.rendered(damage);
        assert_eq!((px.to_vec(), px.len()), (r.canvas().to_vec(), 4 * 5 * 4));
        assert_eq!((told.x, told.y, told.w, told.h), (dirty.x, dirty.y, dirty.w, dirty.h));
    }
    assert_eq!(r.canvas()[0], 9);
}

/// Draws a frame as far as it changed; each triangle leaves a mark of its colour in the pixels
/// of its box. The frame's damage.
fn mark_frame(r: &mut Raster, verts: &[Vertex], idx: &[u32], prims: &[Prim], w: u32, h: u32) -> Option<(i32, i32, i32, i32)> {
    let damage = r.plan_damage(verts, idx, prims, w, h);
    if let Some(d) = damage {
        let clear = r.clear;
        let mut band = Band { px: &mut r.canvas, width: w as i32, y0: 0, y1: h as i32 };
        for j in raster_band(&mut band, d, clear, verts, idx, prims) {
            let (a, b, c) = (&verts[j.a as usize], &verts[j.b as usize], &verts[j.c as usize]);
            if let Some(s) = raster_tri(Sign::Positive, j.clip, 0, h as i32, a, b, c) {
                for y in s.bbox.y0..s.bbox.y1 {
                    for x in s.bbox.x0..s.bbox.x1 {
                        let old = band.get(x, y);
                        let mark = a.color.to_le_bytes();
                        band.put(x, y, [old[0] / 2 + mark[0] / 2, old[1] ^ mark[1], old[2].wrapping_add(x as u8), old[3]]);
                    }
                }
            }
        }
    }
    damage
}

#[test]
fn partial_redraw_is_the_whole_frame() {
    let (w, h) = (24, 20);
    let scene = |at: (f32, f32), color: u32| {
        let (mut verts, mut idx) = (Vec::new(), Vec::new());
        let a = rect_mesh(&mut verts, &mut idx, (2.0, 2.5, 20.0, 9.0), 0xff10_2030);
        let b = rect_mesh(&mut verts, &mut idx, (at.0, at.1, at.0 + 5.25, at.1 + 4.0), color);
        let clip = bits([0.0, 0.0, 22.5, 18.0]);
        let prim = |i: (u32, u32)| Prim { clip, tex_id: 0, idx0: i.0, idx1: i.1 };
        (verts, idx, vec![prim(a), prim(b)])
    };
    let scenes = [
        scene((3.0, 3.0), 0xff00_00ff),
        scene((11.5, 8.75), 0xff00_00ff),
        scene((11.5, 8.75), 0xff00_ff40),
        scene((11.5, 8.75), 0xff00_ff40),
        scene((-2.0, 15.0), 0xff00_ff40),
        scene((19.0, -1.0), 0xff00_ff40),
    ];
    let mut kept = Raster::new(CLEAR);
    let mut areas = Vec::new();
    for (verts, idx, prims) in &scenes {
        let d = mark_frame(&mut kept, verts, idx, prims, w, h);
        areas.push(d.map_or(0, |d| (d.2 - d.0) * (d.3 - d.1)));
        let mut fresh = Raster::new(CLEAR);
        mark_frame(&mut fresh, verts, idx, prims, w, h);
        assert_eq!(kept.canvas(), fresh.canvas());
    }
    assert_eq!(areas[0], 24 * 20);
    assert_eq!(areas[3], 0);
    assert!(areas[1..].iter().all(|&a| a < 24 * 20), "{areas:?}");
}
