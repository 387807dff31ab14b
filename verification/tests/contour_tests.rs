use falling_everything_core::contour::{edge_midpoint2, marching_squares_contours, MsEdge};

fn polygon_area(contour: &[MsEdge]) -> f32 {
    let pts: Vec<(f32, f32)> = contour
        .iter()
        .map(|e| {
            let (x2, y2) = edge_midpoint2(*e);
            (x2 as f32 * 0.5, y2 as f32 * 0.5)
        })
        .collect();
    let n = pts.len();
    let mut area = 0.0;
    for i in 0..n {
        let j = (i + 1) % n;
        area += pts[i].0 * pts[j].1;
        area -= pts[j].0 * pts[i].1;
    }
    area * 0.5
}

#[test]
fn marching_squares_two_disconnected_islands() {
    let p = vec![(0, 0), (1, 0), (0, 1), (1, 1), (5, 0), (6, 0), (5, 1), (6, 1)];
    let loops = marching_squares_contours(&p);
    assert_eq!(loops.len(), 2, "two separated groups should each get a boundary loop");
    for l in &loops {
        assert!(polygon_area(l) > 0.0, "outer boundary should be CCW (positive area)");
    }
}

#[test]
fn marching_squares_single_pixel() {
    let loops = marching_squares_contours(&vec![(0, 0)]);
    assert_eq!(loops.len(), 1);
    assert!(polygon_area(&loops[0]) > 0.0);
}

#[test]
fn marching_squares_hole_produces_two_loops() {
    let mut pixels = Vec::new();
    for y in 0..5 {
        for x in 0..5 {
            if x >= 1 && x <= 3 && y >= 1 && y <= 3 {
                continue;
            }
            pixels.push((x, y));
        }
    }
    let loops = marching_squares_contours(&pixels);
    assert_eq!(loops.len(), 2, "ring should produce outer + hole loop");
    let mut areas: Vec<f32> = loops.iter().map(|l| polygon_area(l)).collect();
    areas.sort_by(|a, b| b.partial_cmp(a).unwrap());
    assert!(areas[0] > 0.0, "outer boundary positive");
    assert!(areas[1] < 0.0, "hole boundary negative");
}

#[test]
fn single_pixel_contour_crosses_the_four_sides_around_it() {
    let loops = marching_squares_contours(&vec![(3, -2)]);
    assert_eq!(loops.len(), 1);
    let mut mids: Vec<(i64, i64)> = loops[0].iter().map(|e| edge_midpoint2(*e)).collect();
    mids.sort();
    assert_eq!(mids, vec![(5, -4), (6, -5), (6, -3), (7, -4)]);
}

#[test]
fn no_pixels_give_no_contours() {
    assert!(marching_squares_contours(&Vec::new()).is_empty());
}

#[test]
fn diagonal_pixels_form_one_contour_through_the_saddle() {
    // Pixels touching only at a corner: the saddle cell joins them into one outline.
    let loops = marching_squares_contours(&vec![(0, 0), (1, 1)]);
    assert_eq!(loops.len(), 1);
    assert_eq!(loops[0].len(), 8);
    assert!(polygon_area(&loops[0]) > 0.0);
}

#[test]
fn contours_keep_the_pixels_on_their_right() {
    let pixels = vec![(0, 0), (1, 0), (2, 0), (1, 1), (4, 4)];
    let filled = |x: i32, y: i32| pixels.contains(&(x, y));
    for l in marching_squares_contours(&pixels) {
        for e in &l {
            let (tl, tr, br, bl) = (
                filled(e.cx, e.cy),
                filled(e.cx + 1, e.cy),
                filled(e.cx + 1, e.cy + 1),
                filled(e.cx, e.cy + 1),
            );
            let (right, left) = match e.side {
                0 => (tl, tr),
                1 => (tr, br),
                2 => (br, bl),
                _ => (bl, tl),
            };
            assert!(right && !left);
        }
    }
}
