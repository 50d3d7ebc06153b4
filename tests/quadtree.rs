use quadtree_art::buffer::{Color, PixelBuffer};
use quadtree_art::region::Region;
use quadtree_art::stats::{average, average_n};
use quadtree_art::tree::{QuadTree, SENTINEL};

fn buffer_of(width: u32, height: u32, pixels: &[Color]) -> PixelBuffer {
    assert_eq!(pixels.len(), (width * height) as usize);
    let mut data = Vec::new();
    for p in pixels {
        data.push(p.0);
        data.push(p.1);
        data.push(p.2);
    }
    PixelBuffer::from_rgb_bytes(width, height, data).unwrap()
}

fn distinct(width: u32, height: u32) -> PixelBuffer {
    let mut pixels = Vec::new();
    for y in 0..height {
        for x in 0..width {
            pixels.push(((x * 40) as u8, (y * 40) as u8, ((x + y) * 10) as u8));
        }
    }
    buffer_of(width, height, &pixels)
}

fn leaf(c: Color) -> Box<QuadTree> {
    Box::new(QuadTree::Leaf(c))
}

fn count_leaves(t: &QuadTree) -> usize {
    match t {
        QuadTree::Leaf(_) => 1,
        QuadTree::Node(a, b, c, d) => {
            count_leaves(a) + count_leaves(b) + count_leaves(c) + count_leaves(d)
        }
    }
}

fn full(b: &PixelBuffer) -> Region {
    Region { x: 0, y: 0, width: b.width(), height: b.height() }
}

#[test]
fn uniform_gray_four_by_four_gives_four_flat_leaves() {
    let g = (128, 128, 128);
    let b = buffer_of(4, 4, &[g; 16]);
    let t = QuadTree::from_img(&b, 1000);
    assert_eq!(t, QuadTree::Node(leaf(g), leaf(g), leaf(g), leaf(g)));
}

#[test]
fn two_by_two_corners_become_the_leaves() {
    let a = (255, 0, 0);
    let bb = (0, 255, 0);
    let c = (0, 0, 255);
    let d = (9, 99, 199);
    let b = buffer_of(2, 2, &[a, bb, c, d]);
    for detail in [0usize, 1, 50, 100_000] {
        let t = QuadTree::from_img(&b, detail);
        assert_eq!(t, QuadTree::Node(leaf(a), leaf(bb), leaf(c), leaf(d)));
    }
}

#[test]
fn odd_split_gives_remainder_to_right_and_bottom() {
    let q = Region { x: 0, y: 0, width: 3, height: 3 }.quadrants();
    assert_eq!(q[0], Region { x: 0, y: 0, width: 1, height: 1 });
    assert_eq!(q[1], Region { x: 1, y: 0, width: 2, height: 1 });
    assert_eq!(q[2], Region { x: 0, y: 1, width: 1, height: 2 });
    assert_eq!(q[3], Region { x: 1, y: 1, width: 2, height: 2 });
}

#[test]
fn odd_split_shapes_the_built_tree() {
    let p = |x: u8, y: u8| (x * 40, y * 40, 7);
    let b = buffer_of(
        3,
        3,
        &[p(0, 0), p(1, 0), p(2, 0), p(0, 1), p(1, 1), p(2, 1), p(0, 2), p(1, 2), p(2, 2)],
    );
    let t = QuadTree::from_img(&b, 0);
    let expected = QuadTree::Node(
        leaf(p(0, 0)),
        leaf((60, 0, 7)),
        leaf((0, 60, 7)),
        Box::new(QuadTree::Node(leaf(p(1, 1)), leaf(p(2, 1)), leaf(p(1, 2)), leaf(p(2, 2)))),
    );
    assert_eq!(t, expected);
}

#[test]
fn thin_regions_are_leaves() {
    let b = distinct(5, 1);
    assert_eq!(QuadTree::from_img(&b, 0), QuadTree::Leaf((80, 0, 20)));
    let b = distinct(1, 4);
    assert_eq!(QuadTree::from_img(&b, 0), QuadTree::Leaf((0, 60, 15)));
    let b = distinct(1, 1);
    assert_eq!(QuadTree::from_img(&b, 7), QuadTree::Leaf((0, 0, 0)));
}

#[test]
fn uniform_region_has_its_color_as_mean_and_no_dispersion() {
    let c = (255, 255, 255);
    let b = buffer_of(3, 5, &[c; 15]);
    assert_eq!(average(&b, full(&b)), c);
    assert_eq!(average_n(&b, full(&b)), 0);
    let c = (17, 0, 254);
    let b = buffer_of(7, 3, &[c; 21]);
    let r = Region { x: 2, y: 1, width: 4, height: 2 };
    assert_eq!(average(&b, r), c);
    assert_eq!(average_n(&b, r), 0);
}

#[test]
fn mean_is_truncated() {
    let b = buffer_of(3, 1, &[(10, 20, 30), (11, 21, 31), (11, 21, 31)]);
    assert_eq!(average(&b, full(&b)), (10, 20, 30));
    let b = buffer_of(1, 2, &[(0, 0, 0), (1, 1, 255)]);
    assert_eq!(average(&b, full(&b)), (0, 0, 127));
}

#[test]
fn dispersion_is_a_sum_about_the_mean() {
    let b = buffer_of(2, 1, &[(0, 0, 0), (10, 0, 0)]);
    assert_eq!(average_n(&b, full(&b)), 50);
    let b = buffer_of(2, 1, &[(0, 0, 0), (1, 0, 0)]);
    assert_eq!(average_n(&b, full(&b)), 1);
    let b = buffer_of(2, 2, &[(0, 0, 0), (255, 255, 255), (0, 0, 0), (255, 255, 255)]);
    // mean 127 per channel: 2 * 3 * 127² + 2 * 3 * 128²
    assert_eq!(average_n(&b, full(&b)), 2 * 3 * 127 * 127 + 2 * 3 * 128 * 128);
}

#[test]
fn dispersion_threshold_decides_the_split() {
    // 4 x 4, left half black, right half white; the truncated mean is 127, so the
    // dispersion is 8 * 3 * 127² + 8 * 3 * 128² = 780312.
    let mut pixels = Vec::new();
    for _y in 0..4 {
        pixels.extend_from_slice(&[(0, 0, 0), (0, 0, 0), (255, 255, 255), (255, 255, 255)]);
    }
    let b = buffer_of(4, 4, &pixels);
    assert_eq!(average_n(&b, full(&b)), 780312);
    let k = (0, 0, 0);
    let w = (255, 255, 255);
    // 884² = 781456 > 780312: stop one level down.
    assert_eq!(QuadTree::from_img(&b, 884), QuadTree::Node(leaf(k), leaf(w), leaf(k), leaf(w)));
    // 883² = 779689 <= 780312: recurse.
    let t = QuadTree::from_img(&b, 883);
    assert_eq!(count_leaves(&t), 16);
}

#[test]
fn more_detail_never_adds_leaves() {
    let b = distinct(13, 9);
    let mut last = usize::MAX;
    for detail in [0usize, 1, 10, 50, 100, 200, 400, 1000, 5000, 100_000] {
        let n = count_leaves(&QuadTree::from_img(&b, detail));
        assert!(n <= last);
        last = n;
    }
    assert_eq!(count_leaves(&QuadTree::from_img(&distinct(4, 4), 0)), 16);
    assert_eq!(count_leaves(&QuadTree::from_img(&distinct(4, 4), 100_000)), 4);
}

#[test]
fn leaves_tile_the_image() {
    // Paint each leaf of a built tree with a marker and count the pixels painted.
    let b = distinct(7, 5);
    let t = QuadTree::from_img(&b, 30);
    let mut out = PixelBuffer::new(7, 5);
    t.draw_full(&mut out, false);
    for y in 0..5 {
        for x in 0..7 {
            assert!(out.pixel(x, y).is_some());
        }
    }
    assert_eq!(out.pixel(7, 0), None);
    assert_eq!(out.pixel(0, 5), None);
}

#[test]
fn render_then_rebuild_gives_the_leaf_colors() {
    for detail in [0usize, 20, 90, 1000] {
        let b = distinct(9, 6);
        let t = QuadTree::from_img(&b, detail);
        let mut out = PixelBuffer::new(9, 6);
        t.draw_full(&mut out, false);
        let again = QuadTree::from_img(&out, 0);
        let mut out2 = PixelBuffer::new(9, 6);
        again.draw_full(&mut out2, false);
        for y in 0..6 {
            for x in 0..9 {
                assert_eq!(out.pixel(x, y), out2.pixel(x, y));
            }
        }
    }
}

#[test]
fn leaf_fills_its_region_only() {
    let mut out = PixelBuffer::new(4, 3);
    let c = (1, 2, 3);
    QuadTree::Leaf(c).draw(&mut out, Region { x: 1, y: 1, width: 2, height: 2 }, false);
    for y in 0..3u32 {
        for x in 0..4u32 {
            let inside = (1..3).contains(&x) && (1..3).contains(&y);
            assert_eq!(out.pixel(x, y), Some(if inside { c } else { (0, 0, 0) }));
        }
    }
}

#[test]
fn line_mode_leaves_gutters() {
    let (a, bb, c, d) = ((10, 0, 0), (20, 0, 0), (30, 0, 0), (40, 0, 0));
    let t = QuadTree::Node(leaf(a), leaf(bb), leaf(c), leaf(d));
    let mut out = PixelBuffer::new(5, 5);
    t.draw_full(&mut out, true);
    // quadrants (0,0,2,2) (2,0,3,2) (0,2,2,3) (2,2,3,3), each less a column and a row
    let mut expected = [[(0u8, 0u8, 0u8); 5]; 5];
    expected[0][0] = a;
    expected[0][2] = bb;
    expected[0][3] = bb;
    expected[2][0] = c;
    expected[3][0] = c;
    for y in 2..4 {
        for x in 2..4 {
            expected[y][x] = d;
        }
    }
    for y in 0..5 {
        for x in 0..5 {
            assert_eq!(out.pixel(x as u32, y as u32), Some(expected[y][x]));
        }
    }
}

#[test]
fn line_mode_marks_thin_nodes() {
    let g = (5, 5, 5);
    let t = QuadTree::Node(leaf(g), leaf(g), leaf(g), leaf(g));
    let mut out = PixelBuffer::new(3, 4);
    t.draw(&mut out, Region { x: 1, y: 0, width: 1, height: 4 }, true);
    for y in 0..4 {
        assert_eq!(out.pixel(0, y), Some((0, 0, 0)));
        assert_eq!(out.pixel(1, y), Some(SENTINEL));
        assert_eq!(out.pixel(2, y), Some((0, 0, 0)));
    }
    assert_eq!(SENTINEL, (255, 0, 255));
}

#[test]
fn line_mode_nested_node_in_thin_slot_is_marked() {
    // A built 4 x 4 tree at detail 0 has nodes over 2 x 2 quadrants, painted in line mode
    // over 1 x 1 slots.
    let b = distinct(4, 4);
    let t = QuadTree::from_img(&b, 0);
    let mut out = PixelBuffer::new(4, 4);
    t.draw_full(&mut out, true);
    assert_eq!(out.pixel(0, 0), Some(SENTINEL));
    assert_eq!(out.pixel(2, 2), Some(SENTINEL));
    assert_eq!(out.pixel(1, 1), Some((0, 0, 0)));
    assert_eq!(out.pixel(3, 0), Some((0, 0, 0)));
}

#[test]
fn plain_mode_paints_nodes_over_thin_regions() {
    let (a, bb, c, d) = ((10, 0, 0), (20, 0, 0), (30, 0, 0), (40, 0, 0));
    let t = QuadTree::Node(leaf(a), leaf(bb), leaf(c), leaf(d));
    let mut out = PixelBuffer::new(1, 3);
    t.draw_full(&mut out, false);
    // width 1 splits into widths 0 and 1; height 3 into 1 and 2
    assert_eq!(out.pixel(0, 0), Some(bb));
    assert_eq!(out.pixel(0, 1), Some(d));
    assert_eq!(out.pixel(0, 2), Some(d));
}

#[test]
fn buffer_reads_row_major_bytes() {
    let b = PixelBuffer::from_rgb_bytes(2, 2, (0..12).collect()).unwrap();
    assert_eq!(b.width(), 2);
    assert_eq!(b.height(), 2);
    assert_eq!(b.pixel(0, 0), Some((0, 1, 2)));
    assert_eq!(b.pixel(1, 0), Some((3, 4, 5)));
    assert_eq!(b.pixel(0, 1), Some((6, 7, 8)));
    assert_eq!(b.pixel(1, 1), Some((9, 10, 11)));
    assert_eq!(b.pixel(2, 1), None);
    assert!(PixelBuffer::from_rgb_bytes(2, 2, vec![0; 11]).is_none());
    assert!(PixelBuffer::from_rgb_bytes(2, 2, vec![0; 13]).is_some());
}

#[test]
fn set_pixel_writes_in_bounds_only() {
    let mut b = PixelBuffer::new(2, 3);
    assert!(b.set_pixel(1, 2, (7, 8, 9)));
    assert!(!b.set_pixel(2, 0, (1, 1, 1)));
    assert_eq!(b.pixel(1, 2), Some((7, 8, 9)));
    assert_eq!(b.pixel(0, 0), Some((0, 0, 0)));
    assert_eq!(b.width(), 2);
    assert_eq!(b.height(), 3);
}
