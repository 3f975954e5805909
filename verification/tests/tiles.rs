use upscale::grid::{
    flow_sides, flow_windows, one_step_windows, tile_grid, vae_windows, Window, WindowPlan,
};
use upscale::tiling::tile_origins;

#[test]
fn one_tile_covers_a_small_image() {
    assert_eq!(tile_origins(64, 48, 128, 0), (vec![(0, 0)], 48, 64, 1));
    // With an overlap the second column starts inside the image and slides back.
    assert_eq!(tile_origins(64, 48, 128, 16), (vec![(0, 0), (0, 0)], 48, 64, 2));
    assert_eq!(tile_origins(3, 2, 128, 16), (vec![(0, 0)], 2, 3, 1));
}

#[test]
fn edge_tiles_slide_back_to_the_border() {
    let (origins, th, tw, total) = tile_origins(192, 192, 128, 16);
    assert_eq!(origins, vec![(0, 0), (0, 64), (64, 0), (64, 64)]);
    assert_eq!((th, tw, total), (128, 128, 4));
}

#[test]
fn tile_and_overlap_are_clamped() {
    let (origins, th, tw, total) = tile_origins(20, 8, 1, 100);
    assert_eq!((th, tw), (8, 8));
    let columns: Vec<usize> = origins.iter().map(|o| o.1).collect();
    assert_eq!(columns, vec![0, 4, 8, 12, 12, 0, 4, 8, 12, 12]);
    assert_eq!(total, 10);
}

#[test]
fn an_empty_image_has_no_tiles_and_one_unit_of_progress() {
    assert_eq!(tile_origins(0, 0, 128, 16), (vec![], 0, 0, 1));
    assert_eq!(tile_origins(0, 9, 128, 16), (vec![], 9, 0, 1));
}

#[test]
fn tiles_cover_stay_inside_and_overlap() {
    for (w, h, tile, overlap) in [(100, 37, 32, 8), (33, 65, 16, 15), (9, 200, 8, 0)] {
        let (origins, th, tw, _) = tile_origins(w, h, tile, overlap);
        let mut held = vec![0; w * h];
        for &(y0, x0) in &origins {
            assert!(x0 + tw <= w && y0 + th <= h);
            for y in y0..y0 + th {
                for x in x0..x0 + tw {
                    held[y * w + x] += 1;
                }
            }
        }
        assert!(held.iter().all(|&n| n >= 1));
        for pair in origins.windows(2) {
            if pair[0].0 == pair[1].0 && pair[0].1 < pair[1].1 {
                assert!(pair[0].1 + tw >= pair[1].1 + overlap.min(tile / 2));
            }
        }
    }
}

#[test]
fn tiles_above_each_other_overlap() {
    let (origins, th, _, _) = tile_origins(100, 70, 32, 8);
    let columns = origins.iter().filter(|o| o.0 == 0).count();
    assert_eq!(columns, 5);
    let rows: Vec<usize> = origins.chunks(columns).map(|row| row[0].0).collect();
    assert_eq!(rows, vec![0, 24, 38]);
    for pair in rows.windows(2) {
        assert!(pair[0] + th >= pair[1] + 8);
    }
    for k in 0..origins.len() - columns {
        assert_eq!(origins[k].1, origins[k + columns].1);
    }
}

#[test]
fn window_starts_reach_the_far_end() {
    assert_eq!(tile_grid(10, 16, 4), vec![0]);
    assert_eq!(tile_grid(16, 16, 4), vec![0]);
    assert_eq!(tile_grid(40, 16, 4), vec![0, 12, 24]);
    assert_eq!(tile_grid(41, 16, 4), vec![0, 12, 24, 25]);
    assert_eq!(tile_grid(5, 3, 9), vec![0, 1, 2]);
    assert_eq!(tile_grid(0, 0, 0), vec![0]);
}

fn corners(plan: &WindowPlan) -> Vec<(usize, usize)> {
    plan.windows.iter().map(|w| (w.row, w.col)).collect()
}

#[test]
fn the_default_tile_is_64_in_the_latent() {
    let plan = flow_windows(100, 64, 128, 16);
    assert_eq!((plan.th, plan.tw), (64, 64));
    assert_eq!(corners(&plan), vec![(0, 0), (36, 0)]);
    assert_eq!(plan.windows[0], Window { row: 0, col: 0, below: 36, right: 0 });
    assert_eq!(plan.windows[1], Window { row: 36, col: 0, below: 0, right: 0 });
}

#[test]
fn sides_are_extended_only_where_tiles_would_have_half_patches() {
    // Whole cells and an even tile: nothing is added, be a side odd or not.
    assert_eq!(flow_sides(568, 568, 128), (568, 568));
    assert_eq!(flow_sides(256, 264, 128), (256, 264));
    assert_eq!(flow_sides(512, 1000, 128), (512, 1000));
    // Half a cell is made whole.
    assert_eq!(flow_sides(564, 568, 128), (568, 568));
    // The tile is cut short to an odd side.
    assert_eq!(flow_sides(264, 264, 128), (272, 272));
    assert_eq!(flow_sides(264, 280, 128), (272, 280));
    assert_eq!(flow_sides(264, 272, 128), (272, 272));
    assert_eq!(flow_sides(4, 4, 128), (16, 16));
    assert_eq!(flow_windows(34, 35, 128, 16).th, 34);
}

#[test]
fn a_tiny_tile_is_one_patch() {
    let plan = flow_windows(6, 4, 1, 0);
    assert_eq!(plan.th, 2);
    assert_eq!(corners(&plan), vec![(0, 0), (0, 2), (2, 0), (2, 2), (4, 0), (4, 2)]);
    let odd = flow_windows(9, 9, 7, 0);
    assert_eq!(odd.th, 2);
    assert_eq!(flow_windows(3, 1, 128, 16).th, 1);
}

#[test]
fn encoding_windows() {
    let plan = vae_windows(64, 130);
    assert_eq!(plan.th, 64);
    assert_eq!(corners(&plan), vec![(0, 0), (0, 56), (0, 66)]);
    assert_eq!(plan.windows[1].right, 130 - 56 - 64);
    let small = vae_windows(1, 3);
    assert_eq!(small.th, 1);
    assert_eq!(corners(&small), vec![(0, 0), (0, 1), (0, 2)]);
}

#[test]
fn the_one_step_model_tiles_only_large_latents() {
    assert!(one_step_windows(64, 64, 128, 16).is_none());
    assert!(one_step_windows(8, 8, 1, 0).is_none());
    assert!(one_step_windows(4, 6, 128, 16).is_none());
    assert!(one_step_windows(7, 7, 1, 0).is_none());
    assert!(one_step_windows(0, 3, 8, 0).is_none());
    let plan = one_step_windows(16, 12, 8, 0).unwrap();
    assert_eq!((plan.th, plan.tw), (8, 8));
    assert_eq!(corners(&plan), vec![(0, 0), (0, 4), (8, 0), (8, 4)]);
    for w in &plan.windows {
        assert_eq!(w.row + 8 + w.below, 16);
        assert_eq!(w.col + 8 + w.right, 12);
    }
    let flat = one_step_windows(4, 20, 128, 0).unwrap();
    assert_eq!((flat.th, flat.tw), (4, 8));
}
