use recreate::clustering::best_run;
use recreate::color::{blend, BlendFactor, Color};
use recreate::error::MosaicError;
use recreate::grid::{cell_rects, next_divisor, plan_grid, CellRect, Grid};
use recreate::mosaic::{assemble, render_cell, tint};
use recreate::raster::{fits_in_memory, resize_exact, Filter, Raster};

fn rgba(r: u8, g: u8, b: u8, a: u8) -> Color {
    Color { r, g, b, a }
}

fn solid(width: u32, height: u32, c: Color) -> Raster {
    Raster::from_pixels(width, height, vec![c; (width * height) as usize]).unwrap()
}

fn gradient(width: u32, height: u32) -> Raster {
    let mut pixels = Vec::new();
    for y in 0..height {
        for x in 0..width {
            pixels.push(rgba((x * 7 % 256) as u8, (y * 11 % 256) as u8, ((x + y) % 256) as u8, 255));
        }
    }
    Raster::from_pixels(width, height, pixels).unwrap()
}

fn factor(num: u32, den: u32) -> BlendFactor {
    BlendFactor::new(num, den).unwrap()
}

#[test]
fn next_divisor_rounds_up_to_divisor() {
    assert_eq!(next_divisor(100, 7), Ok(10));
    assert_eq!(next_divisor(100, 10), Ok(10));
    assert_eq!(next_divisor(100, 26), Ok(50));
    assert_eq!(next_divisor(13, 2), Ok(13));
    assert_eq!(next_divisor(1, 1), Ok(1));
}

#[test]
fn next_divisor_is_least_for_small_widths() {
    for n in 1u32..60 {
        for start in 1u32..=n {
            let d = next_divisor(n, start).unwrap();
            assert_eq!(n % d, 0);
            assert!(d >= start && d <= n);
            for k in start..d {
                assert_ne!(n % k, 0);
            }
        }
    }
}

#[test]
fn next_divisor_rejects_request_above_dimension() {
    assert_eq!(next_divisor(100, 101), Err(MosaicError::InvalidGridRequest));
    assert_eq!(next_divisor(0, 1), Err(MosaicError::InvalidGridRequest));
}

#[test]
fn plan_grid_seven_columns_on_hundred_pixels() {
    let g = plan_grid(100, 100, 7, 10).unwrap();
    assert_eq!(g.cols, 10);
    assert_eq!(g.rows, 10);
    assert_eq!(g.cell_width(), 10);
    assert_eq!(g.cell_height(), 10);
}

#[test]
fn plan_grid_columns_equal_width_gives_single_pixel_cells() {
    let g = plan_grid(64, 48, 64, 48).unwrap();
    assert_eq!((g.cols, g.rows), (64, 48));
    assert_eq!((g.cell_width(), g.cell_height()), (1, 1));
    let rects = cell_rects(&g);
    assert_eq!(rects.len(), 64 * 48);
    assert_eq!(rects[65], CellRect { x: 1, y: 1, width: 1, height: 1 });
}

#[test]
fn plan_grid_rejects_too_many_columns_or_rows() {
    assert_eq!(plan_grid(64, 48, 65, 10), Err(MosaicError::InvalidGridRequest));
    assert_eq!(plan_grid(64, 48, 10, 49), Err(MosaicError::InvalidGridRequest));
}

#[test]
fn cell_rects_are_row_major() {
    let g = Grid { width: 120, height: 60, cols: 4, rows: 3 };
    let rects = cell_rects(&g);
    assert_eq!(rects.len(), 12);
    assert_eq!(rects[0], CellRect { x: 0, y: 0, width: 30, height: 20 });
    assert_eq!(rects[3], CellRect { x: 90, y: 0, width: 30, height: 20 });
    assert_eq!(rects[6], CellRect { x: 60, y: 20, width: 30, height: 20 });
    assert_eq!(rects[11], CellRect { x: 90, y: 40, width: 30, height: 20 });
}

#[test]
fn cell_rects_tile_image_exactly_once() {
    let g = plan_grid(90, 40, 4, 3).unwrap();
    assert_eq!((g.cols, g.rows), (5, 4));
    let rects = cell_rects(&g);
    let mut hits = vec![0u32; 90 * 40];
    for r in &rects {
        assert_eq!((r.width, r.height), (18, 10));
        for y in r.y..r.y + r.height {
            for x in r.x..r.x + r.width {
                hits[(y * 90 + x) as usize] += 1;
            }
        }
    }
    assert!(hits.iter().all(|&h| h == 1));
}

#[test]
fn scale_clamps_and_keeps_alpha() {
    let c = rgba(100, 200, 255, 7).scale(3, 2);
    assert_eq!(c, rgba(150, 255, 255, 7));
    let d = rgba(101, 3, 0, 9).scale(1, 2);
    assert_eq!(d, rgba(50, 1, 0, 9));
}

#[test]
fn saturating_add_clamps_each_channel() {
    let s = rgba(200, 10, 0, 255).saturating_add(rgba(100, 20, 0, 255));
    assert_eq!(s, rgba(255, 30, 0, 255));
}

#[test]
fn blend_half_way() {
    let c = blend(rgba(200, 100, 50, 128), rgba(0, 0, 0, 255), factor(1, 2));
    assert_eq!(c, rgba(100, 50, 25, 128));
    let d = blend(rgba(200, 100, 50, 128), rgba(100, 200, 0, 255), factor(7, 10));
    assert_eq!(d, rgba(130, 170, 15, 128));
}

#[test]
fn blend_zero_keeps_candidate_and_one_gives_dominant() {
    for v in [0u8, 1, 77, 128, 254, 255] {
        let cand = rgba(v, 255 - v, v / 2, v);
        let dom = rgba(255 - v, v, 3, 255);
        assert_eq!(blend(cand, dom, factor(0, 1)), cand);
        assert_eq!(blend(cand, dom, factor(0, 1000)), cand);
        assert_eq!(blend(cand, dom, factor(1000, 1000)), rgba(dom.r, dom.g, dom.b, cand.a));
        let opaque = rgba(v, 255 - v, v / 2, 255);
        assert_eq!(blend(opaque, dom, factor(5, 5)), dom);
    }
}

#[test]
fn blend_factor_rejects_out_of_range() {
    assert!(BlendFactor::new(3, 2).is_none());
    assert!(BlendFactor::new(0, 0).is_none());
    assert_eq!(BlendFactor::new(7, 10), Some(BlendFactor { num: 7, den: 10 }));
}

#[test]
fn raster_from_pixels_checks_length() {
    assert!(Raster::from_pixels(2, 2, vec![rgba(0, 0, 0, 0); 3]).is_none());
    let r = Raster::from_pixels(3, 2, (0..6).map(|i| rgba(i, 0, 0, 255)).collect()).unwrap();
    assert_eq!(r.get_pixel(2, 1), rgba(5, 0, 0, 255));
    assert_eq!(r.get_pixel(0, 1), rgba(3, 0, 0, 255));
}

#[test]
fn crop_takes_the_rectangle() {
    let img = gradient(20, 10);
    let part = img.crop(&CellRect { x: 5, y: 3, width: 4, height: 2 });
    assert_eq!((part.width, part.height), (4, 2));
    assert_eq!(part.pixels.len(), 8);
    for j in 0..2 {
        for i in 0..4 {
            assert_eq!(part.get_pixel(i, j), img.get_pixel(5 + i, 3 + j));
        }
    }
}

#[test]
fn tint_blends_every_pixel() {
    let t = tint(&solid(3, 2, rgba(200, 0, 100, 255)), rgba(0, 200, 100, 255), factor(1, 4));
    assert_eq!((t.width, t.height), (3, 2));
    assert!(t.pixels.iter().all(|&p| p == rgba(150, 50, 100, 255)));
}

#[test]
fn render_cell_fails_on_empty_pool() {
    let pool: Vec<Raster> = Vec::new();
    let r = render_cell(&pool, 0, 10, 10, rgba(0, 0, 0, 255), factor(0, 1));
    assert_eq!(r.unwrap_err(), MosaicError::EmptyCandidatePool);
}

#[test]
fn render_cell_resamples_chosen_candidate() {
    let pool = vec![solid(50, 50, rgba(10, 20, 30, 255)), solid(40, 30, rgba(200, 100, 0, 255))];
    let t = render_cell(&pool, 3, 10, 5, rgba(0, 0, 0, 255), factor(0, 1)).unwrap();
    assert_eq!((t.width, t.height), (10, 5));
    assert_eq!(t.pixels.len(), 50);
    assert!(t.pixels.iter().all(|&p| p == rgba(200, 100, 0, 255)));
}

#[test]
fn render_cell_same_size_copies_and_tints() {
    let g = gradient(6, 4);
    let pool = vec![g.clone()];
    let same = render_cell(&pool, 0, 6, 4, rgba(0, 0, 0, 255), factor(0, 1)).unwrap();
    assert_eq!(same.pixels, g.pixels);
    let dark = render_cell(&pool, 0, 6, 4, rgba(0, 0, 0, 255), factor(1, 1)).unwrap();
    assert!(dark.pixels.iter().all(|&p| p == rgba(0, 0, 0, 255)));
}

#[test]
fn mosaic_of_solid_tiles_without_blending() {
    let reference = gradient(100, 100);
    let colors = [
        rgba(255, 0, 0, 255),
        rgba(0, 255, 0, 255),
        rgba(0, 0, 255, 255),
        rgba(255, 255, 0, 255),
        rgba(0, 255, 255, 255),
    ];
    let pool: Vec<Raster> = colors.iter().map(|&c| solid(50, 50, c)).collect();
    let grid = plan_grid(reference.width, reference.height, 10, 10).unwrap();
    let rects = cell_rects(&grid);
    let mut tiles = Vec::new();
    for (i, rect) in rects.iter().enumerate() {
        let cell = reference.crop(rect);
        let dominant = cell.get_pixel(0, 0);
        let draw = (i * 7 + 3) % 5;
        tiles.push(render_cell(&pool, draw, rect.width, rect.height, dominant, factor(0, 10)).unwrap());
    }
    let out = assemble(&grid, &tiles);
    assert_eq!((out.width, out.height), (100, 100));
    assert_eq!(out.pixels.len(), 100 * 100);
    for (i, rect) in rects.iter().enumerate() {
        let expected = colors[(i * 7 + 3) % 5];
        for y in rect.y..rect.y + rect.height {
            for x in rect.x..rect.x + rect.width {
                assert_eq!(out.get_pixel(x, y), expected);
            }
        }
    }
}

#[test]
fn assemble_places_tiles_by_cell() {
    let grid = Grid { width: 4, height: 2, cols: 2, rows: 1 };
    let left = Raster::from_pixels(2, 2, (0..4).map(|i| rgba(i, 0, 0, 255)).collect()).unwrap();
    let right = Raster::from_pixels(2, 2, (0..4).map(|i| rgba(0, i, 0, 255)).collect()).unwrap();
    let out = assemble(&grid, &vec![left, right]);
    let expected = vec![
        rgba(0, 0, 0, 255),
        rgba(1, 0, 0, 255),
        rgba(0, 0, 0, 255),
        rgba(0, 1, 0, 255),
        rgba(2, 0, 0, 255),
        rgba(3, 0, 0, 255),
        rgba(0, 2, 0, 255),
        rgba(0, 3, 0, 255),
    ];
    assert_eq!(out.pixels, expected);
}

#[test]
fn assemble_ignores_order_cells_were_rendered_in() {
    let reference = gradient(30, 20);
    let pool = vec![gradient(17, 9), solid(8, 8, rgba(9, 99, 199, 255))];
    let grid = plan_grid(30, 20, 3, 2).unwrap();
    let rects = cell_rects(&grid);
    let alpha = factor(7, 10);
    let make = |i: usize| {
        let rect = &rects[i];
        let dominant = reference.crop(rect).get_pixel(0, 0);
        render_cell(&pool, i, rect.width, rect.height, dominant, alpha).unwrap()
    };
    let forward: Vec<Raster> = (0..rects.len()).map(make).collect();
    let mut slots: Vec<Option<Raster>> = vec![None; rects.len()];
    for i in (0..rects.len()).rev() {
        slots[i] = Some(make(i));
    }
    let backward: Vec<Raster> = slots.into_iter().map(|t| t.unwrap()).collect();
    assert_eq!(assemble(&grid, &forward).pixels, assemble(&grid, &backward).pixels);
}

#[test]
fn error_messages_are_descriptive() {
    assert!(!MosaicError::InvalidGridRequest.message().is_empty());
    assert!(!MosaicError::EmptyCandidatePool.message().is_empty());
    assert!(!MosaicError::EmptyClusterResult.message().is_empty());
}

#[test]
fn best_run_takes_lowest_score() {
    assert_eq!(best_run(&vec![]), None);
    assert_eq!(best_run(&vec![9]), Some(0));
    assert_eq!(best_run(&vec![u32::MAX, 40, 7]), Some(2));
    assert_eq!(best_run(&vec![5, 3, 3, 8]), Some(1));
    assert_eq!(best_run(&vec![2, 6, 4]), Some(0));
}

#[test]
fn resize_exact_changes_size() {
    let img = gradient(8, 4);
    let square = resize_exact(&img, 8, 8, Filter::CatmullRom).unwrap();
    assert_eq!((square.width, square.height), (8, 8));
    assert_eq!(square.pixels.len(), 64);
    let same = resize_exact(&img, 8, 4, Filter::CatmullRom).unwrap();
    assert_eq!(same.pixels, img.pixels);
    let flat = resize_exact(&solid(12, 6, rgba(40, 80, 120, 255)), 3, 9, Filter::Lanczos3).unwrap();
    assert!(flat.pixels.iter().all(|&p| p == rgba(40, 80, 120, 255)));
}

#[test]
fn fits_in_memory_bounds_image_size() {
    assert!(fits_in_memory(100, 100));
    assert!(fits_in_memory(0, u32::MAX));
    assert_eq!(fits_in_memory(u32::MAX, u32::MAX), (u32::MAX as u128 * u32::MAX as u128 * 4) <= usize::MAX as u128);
}
