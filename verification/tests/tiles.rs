use c41_darkroom::geometry::{
    flip_rect_horizontal, flip_rect_vertical, rotate_dmin_rect_90, scale_rect_to_size,
};
use c41_darkroom::options::{default_options, Rect};
use c41_darkroom::orient::{
    display_to_tex_px, map_display_uv_to_tex, oriented_size, rotate_px, rotate_uv, unrotate_px,
    unrotate_uv, view_rotation, Uv, ViewOrient,
};
use c41_darkroom::pictures::{
    crop_rgb_u8_to_uv, make_thumbnail_from_rgb, sample_array3_4x4, sample_rgb_u8_4x4,
};
use c41_darkroom::film::FilmImage;
use c41_darkroom::single::Single;
use c41_darkroom::tile_cache::{
    evict_tile_cache, keep_tiles_of, place_tile, poll_tile, visible_priority_tiles_ready,
    visible_tile_to_request, PreviewTile, TileEvent, TileFetch,
};
use c41_darkroom::tile_job::{
    begin_tile, plan_tile, tile_halo, tile_not_cut, tile_options, tile_texture_uv,
};
use c41_darkroom::tiles::{
    include_image_edge_tiles, tile_cache_limit, tile_range_intersecting, visible_tile_grid, TileView,
    VisibleTileGrid, PREVIEW_TILE_HALO, PREVIEW_TILE_LRU, PREVIEW_TILE_MAX, PREVIEW_TILE_SIZE,
};
use c41_darkroom::turns::{DrawnRect, PictureFrame};
use c41_darkroom::view::{
    preview_crop_uv, preview_display_wh, preview_draft_limits, preview_minify_texture_options,
    preview_pixel_scale, preview_texture_options, preview_working_limits, proxy_is_soft,
    scaled_crop_px, tile_draw_rect, tile_space, tile_texture_options, want_nearest_filter,
    TextureFilter, UvRect,
};

fn s(v: f32) -> Single {
    Single { bits: v.to_bits() }
}

fn f(v: Single) -> f32 {
    f32::from_bits(v.bits)
}

fn uv(left: f32, top: f32, right: f32, bottom: f32) -> UvRect {
    UvRect { left: s(left), top: s(top), right: s(right), bottom: s(bottom) }
}

fn edges(r: UvRect) -> (f32, f32, f32, f32) {
    (f(r.left), f(r.top), f(r.right), f(r.bottom))
}

#[test]
fn exclusive_end_on_tile_boundary_does_not_drop_previous_tile() {
    let t = PREVIEW_TILE_SIZE as f32;
    let (ix0, _, ix1, _) = tile_range_intersecting(s(0.0), s(0.0), s(t), s(t), s(t), 16, 16);
    assert_eq!((ix0, ix1), (0, 0));
}

#[test]
fn sliver_past_tile_boundary_includes_new_edge_tile() {
    let t = PREVIEW_TILE_SIZE as f32;
    // Zooming out exposes a tenth of a sensor pixel of the next column.
    let (ix0, _, ix1, _) = tile_range_intersecting(s(10.0), s(0.0), s(t + 0.1), s(t), s(t), 16, 16);
    assert_eq!(ix0, 0);
    assert_eq!(ix1, 1);
}

#[test]
fn floor_minus_eps_regression_still_covers_new_column() {
    let t = PREVIEW_TILE_SIZE as f32;
    // Just past a boundary; minus a thousandth it would snap back a tile.
    let px1 = t + 0.0005;
    let old_ix1 = ((px1 - 1e-3) / t).floor() as i32;
    assert_eq!(old_ix1, 0, "documents the old miss");
    let (_, _, ix1, _) = tile_range_intersecting(s(0.0), s(0.0), s(px1), s(t), s(t), 16, 16);
    assert_eq!(ix1, 1);
}

#[test]
fn tiles_on_at_fit_and_100_and_110_percent() {
    assert!(proxy_is_soft(s(0.25)), "fit / zoom-out must request 1:1 tiles");
    assert!(proxy_is_soft(s(0.99)));
    assert!(proxy_is_soft(s(1.0)), "100% must request 1:1 tiles");
    assert!(proxy_is_soft(s(1.1)), "110% must request 1:1 tiles");
    assert!(proxy_is_soft(preview_pixel_scale(s(0.25), s(1.0))));
    assert!(proxy_is_soft(preview_pixel_scale(s(0.5), s(2.0))));
}

#[test]
fn nearest_only_when_magnifying_proxy() {
    assert!(!want_nearest_filter(s(0.5)));
    assert!(!want_nearest_filter(s(1.0)));
    assert!(want_nearest_filter(s(1.1)));
}

#[test]
fn crop_rgb_drops_halo_and_uses_full_tex_uv() {
    let w = 4u32;
    let h = 3u32;
    let mut rgb = Vec::new();
    for y in 0..h {
        for x in 0..w {
            rgb.extend_from_slice(&[x as u8, y as u8, 9]);
        }
    }
    let (out, tex_uv) = crop_rgb_u8_to_uv(w, h, &rgb, uv(0.25, 1.0 / 3.0, 0.75, 2.0 / 3.0));
    assert_eq!((out.width, out.height), (2, 1));
    assert_eq!(out.rgb, vec![1, 1, 9, 2, 1, 9]);
    assert_eq!(edges(tex_uv), (0.0, 0.0, 1.0, 1.0));
}

#[test]
fn over_cap_grid_keeps_visible_silhouette() {
    let g = VisibleTileGrid {
        ix0: 0,
        iy0: 0,
        ix1: 20,
        iy1: 12,
        opt_hash: 0,
        proxy_soft: true,
        tiles_fit: false,
        core_n: PREVIEW_TILE_MAX + 40,
    };
    assert!(g.is_priority(10, 0), "top row must stay");
    assert!(g.is_priority(10, 12), "bottom row must stay");
    assert!(g.is_priority(0, 6), "left column must stay");
    assert!(g.is_priority(20, 6), "right column must stay");
    assert!(g.is_priority(10, 6), "center stays");
}

#[test]
fn fit_view_always_includes_top_sensor_row() {
    // The view shows all of the picture, but the range begins at row one.
    let (ix0, iy0, ix1, iy1) =
        include_image_edge_tiles(uv(0.0, 0.0, 1.0, 1.0), 12, 8, (0, 1, 11, 7));
    assert_eq!(iy0, 0, "image top must request sensor row 0");
    assert_eq!((ix0, ix1, iy1), (0, 11, 7));
}

#[test]
fn tile_draw_rect_snaps_to_virtual_image_edges() {
    let vir = uv(10.0, 20.0, 110.0, 80.0);
    let r = tile_draw_rect(vir, uv(0.0, 0.0, 1.0, 1.0), s(100.0), s(60.0));
    assert_eq!((r.left, r.top), (vir.left, vir.top));
    assert_eq!((r.right, r.bottom), (vir.right, vir.bottom));
}

#[test]
fn inner_tiles_are_drawn_two_pixels_wider() {
    let vir = uv(10.0, 20.0, 110.0, 80.0);
    let r = tile_draw_rect(vir, uv(0.25, 0.25, 0.5, 0.5), s(100.0), s(60.0));
    assert_eq!(edges(r), (33.0, 33.0, 62.0, 52.0));
}

#[test]
fn minify_preview_and_tiles_use_mipmaps() {
    let preview = preview_minify_texture_options();
    assert_eq!(preview.minification, TextureFilter::Linear);
    assert_eq!(preview.mipmap_mode, Some(TextureFilter::Linear));
    let tile = tile_texture_options();
    assert_eq!(tile.magnification, TextureFilter::Nearest);
    assert_eq!(tile.minification, TextureFilter::Linear);
    assert_eq!(tile.mipmap_mode, Some(TextureFilter::Linear));
}

#[test]
fn enlarged_previews_show_their_pixels() {
    let near = preview_texture_options(true);
    assert_eq!(near.magnification, TextureFilter::Nearest);
    assert_eq!(near.mipmap_mode, None);
    assert_eq!(preview_texture_options(false), preview_minify_texture_options());
}

fn rect(x: u32, y: u32, width: u32, height: u32) -> Rect {
    Rect { x, y, width, height }
}

#[test]
fn flips_of_a_rect() {
    let r = rect(10, 20, 30, 40);
    assert_eq!(flip_rect_horizontal(r, 100, 200), rect(60, 20, 30, 40));
    assert_eq!(flip_rect_vertical(r, 100, 200), rect(10, 140, 30, 40));
    assert_eq!(flip_rect_horizontal(flip_rect_horizontal(r, 100, 200), 100, 200), r);
    assert_eq!(
        flip_rect_vertical(flip_rect_horizontal(r, 100, 200), 100, 200),
        flip_rect_horizontal(flip_rect_vertical(r, 100, 200), 100, 200)
    );
}

#[test]
fn turns_of_a_rect() {
    let r = rect(10, 20, 30, 40);
    let cw = rotate_dmin_rect_90(r, 100, 200, true);
    assert_eq!(cw, rect(140, 10, 40, 30));
    assert_eq!(rotate_dmin_rect_90(cw, 200, 100, false), r);
    let mut turned = r;
    let (mut w, mut h) = (100, 200);
    for _ in 0..4 {
        turned = rotate_dmin_rect_90(turned, w, h, true);
        (w, h) = (h, w);
    }
    assert_eq!(turned, r);
    assert_eq!(
        rotate_dmin_rect_90(flip_rect_horizontal(r, 100, 200), 100, 200, true),
        flip_rect_vertical(cw, 200, 100)
    );
}

#[test]
fn rects_scale_with_the_picture() {
    let r = rect(10, 20, 30, 40);
    assert_eq!(scale_rect_to_size(r, Some((100, 200)), 100, 200), r);
    assert_eq!(scale_rect_to_size(r, Some((100, 200)), 50, 100), rect(5, 10, 15, 20));
    let tiny = scale_rect_to_size(r, Some((100, 200)), 1, 1);
    assert!(tiny.width >= 1 && tiny.height >= 1);
    assert_eq!(scale_rect_to_size(r, None, 7, 7), r);
}

fn frame() -> PictureFrame {
    PictureFrame {
        dmin: DrawnRect { rect: Some(rect(10, 20, 30, 40)), reference_size: Some((100, 200)) },
        crop: DrawnRect { rect: Some(rect(0, 0, 50, 60)), reference_size: Some((100, 200)) },
        rotation_degrees: 0,
        flip_horizontal: false,
        flip_vertical: false,
        preview_input_size: Some((100, 200)),
        raw_source_size: Some((1000, 2000)),
        preview_screen_wh: (100, 200),
    }
}

#[test]
fn turning_there_and_back() {
    let p = frame();
    let cw = p.rotate_click(true);
    assert_eq!(cw.rotation_degrees, 90);
    assert_eq!(cw.dmin.reference_size, Some((200, 100)));
    assert_eq!(cw.dmin.rect, Some(rect(140, 10, 40, 30)));
    let back = cw.rotate_click(false);
    assert_eq!(back.dmin.rect, p.dmin.rect);
    assert_eq!(back.crop.rect, p.crop.rect);
    assert_eq!(back.rotation_degrees, 0);
    assert_eq!(p.rotate_click(false).rotation_degrees, 270);
}

#[test]
fn flipping_there_and_back() {
    let p = frame();
    let flipped = p.flip_click(true);
    assert!(flipped.flip_horizontal && !flipped.flip_vertical);
    assert_eq!(flipped.dmin.rect, Some(rect(60, 20, 30, 40)));
    let back = flipped.flip_click(true);
    assert_eq!(back.dmin.rect, p.dmin.rect);
    assert!(!back.flip_horizontal);
    assert!(p.flip_click(false).flip_vertical);
}

#[test]
fn pixels_turn_and_turn_back() {
    for rot in [0, 90, 180, 270] {
        for (x, y) in [(0, 0), (3, 1), (5, 2)] {
            let (sx, sy) = rotate_px(x, y, 6, 3, rot);
            let (w, h) = if rot % 180 == 0 { (6, 3) } else { (3, 6) };
            assert_eq!(unrotate_px(sx, sy, w, h, rot), (x, y));
        }
    }
    assert_eq!(oriented_size(6, 3, 90), (3, 6));
    assert_eq!(view_rotation(90, 0), 90);
    assert_eq!(view_rotation(0, 90), 270);
}

#[test]
fn settled_views_show_their_texture() {
    let o = ViewOrient::from_parts(90, true, false);
    for (x, y) in [(0, 0), (4, 7), (9, 3)] {
        assert_eq!(display_to_tex_px(x, y, 10, 8, o, o), (x, y));
    }
    assert!(o.matches(ViewOrient::from_parts(450, true, false)));
}

#[test]
fn every_shown_pixel_has_its_own_texel() {
    let desired = ViewOrient::from_parts(90, false, true);
    let baked = ViewOrient::from_parts(0, true, false);
    let mut seen = vec![false; 5 * 3];
    for y in 0..5u32 {
        for x in 0..3u32 {
            let (tx, ty) = display_to_tex_px(x, y, 5, 3, desired, baked);
            let at = (ty * 5 + tx) as usize;
            assert!(!seen[at]);
            seen[at] = true;
        }
    }
    assert!(seen.iter().all(|v| *v));
}

#[test]
fn texture_places_turn_as_pixels_do() {
    let p = Uv { u: s(0.25), v: s(0.125) };
    for rot in [0, 90, 180, 270] {
        let q = unrotate_uv(rotate_uv(p, rot), rot);
        assert_eq!((f(q.u), f(q.v)), (0.25, 0.125));
    }
    let o = ViewOrient::from_parts(180, false, false);
    let q = map_display_uv_to_tex(p, o, ViewOrient::from_parts(0, false, false));
    assert_eq!((f(q.u), f(q.v)), (0.75, 0.875));
}

fn tile(ix: i32, iy: i32, hash: u64) -> PreviewTile<u32> {
    PreviewTile { ix, iy, options_hash: hash, picture: (ix * 100 + iy) as u32 }
}

fn grid(ix1: i32, iy1: i32) -> VisibleTileGrid {
    let n = ((ix1 + 1) * (iy1 + 1)) as usize;
    VisibleTileGrid {
        ix0: 0,
        iy0: 0,
        ix1,
        iy1,
        opt_hash: 7,
        proxy_soft: true,
        tiles_fit: n <= PREVIEW_TILE_MAX,
        core_n: n,
    }
}

#[test]
fn eviction_keeps_wanted_tiles() {
    let mut cache: Vec<PreviewTile<u32>> = Vec::new();
    for i in 0..40 {
        cache.push(tile(i, 0, 1));
    }
    cache.push(tile(0, 0, 7));
    cache.push(tile(1, 1, 7));
    let g = Some(grid(1, 1));
    evict_tile_cache(&mut cache, &g);
    assert!(cache.len() <= tile_cache_limit(&g));
    assert!(cache.iter().any(|t| t.ix == 1 && t.iy == 1 && t.options_hash == 7));
    let mut old: Vec<PreviewTile<u32>> = (0..40).map(|i| tile(i, 0, 1)).collect();
    evict_tile_cache(&mut old, &None);
    assert_eq!(old.len(), PREVIEW_TILE_LRU);
    assert_eq!(old[0].ix, 0);
}

#[test]
fn rim_of_the_view_comes_first() {
    let g = grid(2, 2);
    let mut fetch: TileFetch<u32> =
        TileFetch { cache: Vec::new(), inflight: None, failed: Vec::new(), generation: 0 };
    // The middle of the top row comes first, and is tried again where it failed.
    assert_eq!(visible_tile_to_request(&g, &fetch), Some((1, 0)));
    fetch.failed.push((0, 1, 0));
    assert_eq!(visible_tile_to_request(&g, &fetch), Some((1, 0)));
    fetch.inflight = Some((1, 0));
    assert_eq!(visible_tile_to_request(&g, &fetch), Some((0, 0)));
    fetch.inflight = None;
    for i in 0..3 {
        fetch.cache.push(tile(i, 0, 7));
    }
    assert_eq!(visible_tile_to_request(&g, &fetch), Some((0, 1)));
    for (x, y) in [(0, 1), (2, 1), (0, 2), (1, 2), (2, 2)] {
        fetch.cache.push(tile(x, y, 7));
    }
    assert_eq!(visible_tile_to_request(&g, &fetch), Some((1, 1)));
    fetch.failed.push((0, 1, 1));
    assert_eq!(visible_tile_to_request(&g, &fetch), None);
    fetch.failed.clear();
    assert!(!visible_priority_tiles_ready(&fetch.cache, &g, 7));
    for y in 0..3 {
        for x in 0..3 {
            fetch.cache.push(tile(x, y, 7));
        }
    }
    assert!(visible_priority_tiles_ready(&fetch.cache, &g, 7));
    assert!(!visible_priority_tiles_ready(&fetch.cache, &g, 8));
    assert_eq!(visible_tile_to_request(&g, &fetch), None);
}

#[test]
fn placing_a_tile_replaces_the_old_one() {
    let cache = vec![tile(0, 0, 1), tile(1, 0, 1), tile(0, 0, 2)];
    let mut new = tile(0, 0, 1);
    new.picture = 999;
    let placed = place_tile(cache, new);
    let same: Vec<&PreviewTile<u32>> =
        placed.iter().filter(|t| t.ix == 0 && t.iy == 0 && t.options_hash == 1).collect();
    assert_eq!(same.len(), 1);
    assert_eq!(same[0].picture, 999);
    let kept = keep_tiles_of(placed, 1);
    assert!(kept.iter().all(|t| t.options_hash == 1));
}

#[test]
fn tiles_cover_the_picture() {
    let o = default_options(false);
    assert!(tile_halo(&o) >= PREVIEW_TILE_HALO);
    let mut covered = vec![0u32; 1200 * 700];
    for iy in 0..2 {
        for ix in 0..3 {
            let plan = plan_tile(&o, 1200, 700, ix, iy).unwrap();
            for y in plan.area.y..plan.area.y + plan.area.height {
                for x in plan.area.x..plan.area.x + plan.area.width {
                    covered[(y * 1200 + x) as usize] += 1;
                }
            }
            let shown = tile_texture_uv(&plan, &plan.uv);
            assert!(f(shown.left) >= 0.0 && f(shown.right) <= 1.0);
        }
    }
    assert!(covered.iter().all(|n| *n == 1));
    assert!(plan_tile(&o, 1200, 700, 3, 0).is_none());
    assert!(plan_tile(&o, 1200, 700, -1, 0).is_none());
    assert!(plan_tile(&o, 0, 0, 0, 0).is_none());
}

#[test]
fn grid_of_a_view() {
    let o = default_options(false);
    let view = TileView {
        texture: Some((1200, 800)),
        texture_rotation: 0,
        canvas: Some((s(600.0), s(400.0))),
        sensor: Some((6000, 4000)),
        raw_source_size: Some((6000, 4000)),
        zoom: s(1.0),
        pan_x: s(0.5),
        pan_y: s(0.5),
        options_hash: 11,
    };
    let g = visible_tile_grid(&view, &o).unwrap();
    assert_eq!((g.ix0, g.iy0, g.ix1, g.iy1), (0, 0, 11, 7));
    assert_eq!(g.opt_hash, 11);
    assert!(g.tiles_fit && g.proxy_soft);
    let near = TileView { zoom: s(20.0), ..view };
    let n = visible_tile_grid(&near, &o).unwrap();
    assert!(n.ix0 > 0 && n.ix1 < 11);
    assert!(n.core_n < g.core_n);
    let none = TileView { texture: None, ..view };
    assert!(visible_tile_grid(&none, &o).is_none());
}

#[test]
fn working_size_of_a_preview() {
    assert_eq!(preview_draft_limits(), (1920, 1920));
    assert_eq!(preview_working_limits(None, s(1.0), false), (1920, 1200));
    for (w, h, ppp) in [(-5.0f32, 0.0f32, 1.0f32), (1e9, 700.4, 1.5), (f32::INFINITY, 639.6, 1.0)] {
        let (a, b) = preview_working_limits(Some((s(w), s(h))), s(ppp), false);
        assert_eq!(a, (w * ppp).round().clamp(640.0, 1920.0) as u32);
        assert_eq!(b, (h * ppp).round().clamp(640.0, 1200.0) as u32);
    }
    assert_eq!(preview_working_limits(Some((s(1000.0), s(800.0))), s(1.0), true), (u32::MAX, u32::MAX));
    let (w, h) = preview_working_limits(Some((s(100.0), s(100.0))), s(1.0), false);
    assert_eq!((w, h), (640, 640));
}

#[test]
fn crop_of_a_preview() {
    let mut o = default_options(false);
    assert!(scaled_crop_px(&o, 100, 100).is_none());
    assert_eq!(tile_space(&o, 100, 80), rect(0, 0, 100, 80));
    o.apply_crop = true;
    o.crop_rect = Some(rect(20, 10, 50, 40));
    o.crop_rect_reference_size = Some((200, 100));
    assert_eq!(scaled_crop_px(&o, 100, 50), Some(rect(10, 5, 25, 20)));
    let part = preview_crop_uv(&o, 200, 100).unwrap();
    assert_eq!(edges(part), (0.1, 0.1, 0.35, 0.5));
    o.apply_crop = false;
    o.rotation_degrees = 90;
    assert_eq!(preview_display_wh(&o, 0, 300, 200), (200, 300));
}

#[test]
fn thumbnails_keep_their_shape() {
    let rgb = vec![7u8; 40 * 20 * 3];
    let t = make_thumbnail_from_rgb(&rgb, 40, 20, 10).unwrap();
    assert_eq!((t.width, t.height), (10, 5));
    assert_eq!(t.rgb, vec![7u8; 10 * 5 * 3]);
    assert!(make_thumbnail_from_rgb(&rgb, 0, 20, 10).is_none());
    assert!(make_thumbnail_from_rgb(&vec![1, 2], 40, 20, 10).is_none());
}

#[test]
fn picked_colours_are_means() {
    let mut rgb = Vec::new();
    for y in 0..8u8 {
        for x in 0..8u8 {
            rgb.extend_from_slice(&[10 * x, 10 * y, 3]);
        }
    }
    let p = sample_rgb_u8_4x4(&rgb, 8, 8, 4, 4);
    assert_eq!(p[2], 3);
    assert_eq!((p[0], p[1]), (45, 45));
    let img = FilmImage {
        width: 8,
        height: 8,
        channels: 3,
        samples: rgb.iter().map(|v| s(*v as f32)).collect(),
    };
    let (r, g, b) = sample_array3_4x4(&img, 4, 4);
    assert_eq!((f(r), f(g), f(b)), (45.0, 45.0, 3.0));
}

#[test]
fn a_view_that_rests_is_filled() {
    let g = grid(2, 1);
    let mut fetch = TileFetch {
        cache: vec![tile(9, 9, 0)],
        inflight: None,
        failed: Vec::new(),
        generation: 3,
    };
    let mut asked = 0;
    while let Some((ix, iy)) = visible_tile_to_request(&g, &fetch) {
        begin_tile(&mut fetch, ix, iy);
        assert!(!visible_priority_tiles_ready(&fetch.cache, &g, g.opt_hash));
        let made = TileEvent::Made { generation: 3, tile: tile(ix, iy, g.opt_hash) };
        poll_tile(&mut fetch, made, &Some(g));
        assert_eq!(fetch.inflight, None);
        asked += 1;
    }
    assert_eq!(asked, 6);
    assert!(visible_priority_tiles_ready(&fetch.cache, &g, g.opt_hash));
    // A tile of another generation is dropped.
    let n = fetch.cache.len();
    let stale = TileEvent::Made { generation: 2, tile: tile(7, 7, g.opt_hash) };
    poll_tile(&mut fetch, stale, &Some(g));
    assert_eq!(fetch.cache.len(), n);
    begin_tile(&mut fetch, 1, 1);
    poll_tile(&mut fetch, TileEvent::Nothing, &Some(g));
    assert_eq!(fetch.inflight, Some((1, 1)));
    poll_tile(&mut fetch, TileEvent::Lost, &Some(g));
    assert_eq!(fetch.inflight, None);
    tile_not_cut(&mut fetch, 4, 5);
    assert_eq!(fetch.failed, [(3, 4, 5)]);
}

#[test]
fn tiles_heal_their_part_of_the_dust() {
    let mut o = default_options(false);
    o.verbose_debug = true;
    let cut = uv(0.1, 0.2, 0.3, 0.4);
    let healed = tile_options(o.clone(), true, 2, &cut);
    assert_eq!(healed.dust_uv, Some((s(0.1), s(0.2), s(0.3), s(0.4))));
    assert!(!healed.verbose_debug);
    assert_eq!(tile_options(o.clone(), false, 2, &cut).dust_uv, None);
    assert_eq!(tile_options(o, true, 0, &cut).dust_uv, None);
}

#[test]
fn a_cut_that_ends_nowhere_is_empty() {
    let rgb: Vec<u8> = (0..36).collect();
    let (out, at) = crop_rgb_u8_to_uv(4, 3, &rgb, uv(0.0, 0.0, f32::NAN, 1.0));
    assert_eq!((out.width, out.height), (0, 3));
    assert!(out.rgb.is_empty());
    assert_eq!(edges(at), (0.0, 0.0, 1.0, 1.0));
    let (out, _) = crop_rgb_u8_to_uv(4, 3, &rgb, uv(f32::NAN, -3.0, 7.0, 9.0));
    assert_eq!((out.width, out.height, out.rgb), (4, 3, rgb));
}
