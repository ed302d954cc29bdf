use raytracer::buckets::{create_buckets, Bucket, BucketStrategy};

fn bucket(x: u32, y: u32, width: u32, height: u32) -> Bucket {
    Bucket { x, y, width, height }
}

/// Counts, for every pixel of the image, the buckets that hold it.
fn exactly_tiled(buckets: &[Bucket], width: u32, height: u32) -> bool {
    let mut hits = vec![0u32; (width * height) as usize];
    for b in buckets {
        if b.width == 0 || b.height == 0 || b.x + b.width > width || b.y + b.height > height {
            return false;
        }
        for y in b.y..b.y + b.height {
            for x in b.x..b.x + b.width {
                hits[(y * width + x) as usize] += 1;
            }
        }
    }
    hits.iter().all(|&n| n == 1)
}

#[test]
fn test_spiral() {
    // Single bucket.
    assert_eq!(create_buckets(64, 64, BucketStrategy::Spiral, 64, 64),
        vec![Bucket{x:0, y:0, width: 64, height: 64}]);
    // Single bucket, bigger than image.
    assert_eq!(create_buckets(64, 64, BucketStrategy::Spiral, 65, 65),
        vec![Bucket{x:0, y:0, width: 64, height: 64}]);
    // One full bucket, extra on sides.
    assert_eq!(create_buckets(65, 65, BucketStrategy::Spiral, 64, 64),
        vec![Bucket{x:0, y:0, width: 64, height: 64},
             Bucket{x:64, y:0, width: 1, height: 64},
             Bucket{x:64, y:64, width: 1, height: 1},
             Bucket{x:0, y:64, width: 64, height: 1}]);
    // Full test.
    let s = 64;
    assert_eq!(create_buckets(321, 321, BucketStrategy::Spiral, 64, 64),
        vec![Bucket { x: s*2, y: s*2, width: 64, height: 64 },
             Bucket { x: s*3, y: s*2, width: 64, height: 64 },
             Bucket { x: s*3, y: s*3, width: 64, height: 64 },
             Bucket { x: s*2, y: s*3, width: 64, height: 64 },
             Bucket { x: s,   y: s*3, width: 64, height: 64 },
             Bucket { x: s,   y: s*2, width: 64, height: 64 },
             Bucket { x: s,   y: s,   width: 64, height: 64 },
             Bucket { x: s*2, y: s,   width: 64, height: 64 },
             Bucket { x: s*3, y: s,   width: 64, height: 64 },
             Bucket { x: s*4, y: s,   width: 64, height: 64 },
             Bucket { x: s*4, y: s*2, width: 64, height: 64 },
             Bucket { x: s*4, y: s*3, width: 64, height: 64 },
             Bucket { x: s*4, y: s*4, width: 64, height: 64 },
             Bucket { x: s*3, y: s*4, width: 64, height: 64 },
             Bucket { x: s*2, y: s*4, width: 64, height: 64 },
             Bucket { x: s,   y: s*4, width: 64, height: 64 },
             Bucket { x: 0,   y: s*4, width: 64, height: 64 },
             Bucket { x: 0,   y: s*3, width: 64, height: 64 },
             Bucket { x: 0,   y: s*2, width: 64, height: 64 },
             Bucket { x: 0,   y: s,   width: 64, height: 64 },
             Bucket { x: 0,   y: 0,   width: 64, height: 64 },
             Bucket { x: s,   y: 0,   width: 64, height: 64 },
             Bucket { x: s*2, y: 0,   width: 64, height: 64 },
             Bucket { x: s*3, y: 0,   width: 64, height: 64 },
             Bucket { x: s*4, y: 0,   width: 64, height: 64 },
             Bucket { x: s*5, y: 0,   width: 1, height: 64 },
             Bucket { x: s*5, y: s,   width: 1, height: 64 },
             Bucket { x: s*5, y: s*2, width: 1, height: 64 },
             Bucket { x: s*5, y: s*3, width: 1, height: 64 },
             Bucket { x: s*5, y: s*4, width: 1, height: 64 },
             Bucket { x: s*5, y: s*5, width: 1, height: 1 },
             Bucket { x: s*4, y: s*5, width: 64, height: 1 },
             Bucket { x: s*3, y: s*5, width: 64, height: 1 },
             Bucket { x: s*2, y: s*5, width: 64, height: 1 },
             Bucket { x: s,   y: s*5, width: 64, height: 1 },
             Bucket { x: 0,   y: s*5, width: 64, height: 1 }]);

}

#[test]
fn linear_runs_row_by_row() {
    assert_eq!(
        create_buckets(5, 3, BucketStrategy::Linear, 2, 2),
        vec![
            bucket(0, 0, 2, 2),
            bucket(2, 0, 2, 2),
            bucket(4, 0, 1, 2),
            bucket(0, 2, 2, 1),
            bucket(2, 2, 2, 1),
            bucket(4, 2, 1, 1),
        ]
    );
}

#[test]
fn linear_without_leftover_has_whole_buckets_only() {
    assert_eq!(
        create_buckets(4, 2, BucketStrategy::Linear, 2, 2),
        vec![bucket(0, 0, 2, 2), bucket(2, 0, 2, 2)]
    );
}

#[test]
fn empty_image_has_no_buckets() {
    assert_eq!(create_buckets(0, 0, BucketStrategy::Linear, 8, 8), vec![]);
    assert_eq!(create_buckets(0, 0, BucketStrategy::Spiral, 8, 8), vec![]);
    assert_eq!(create_buckets(0, 17, BucketStrategy::Spiral, 8, 8), vec![]);
    assert_eq!(create_buckets(17, 0, BucketStrategy::Linear, 8, 8), vec![]);
}

#[test]
fn spiral_on_one_row_starts_in_the_middle() {
    // Three whole buckets in a row: the centre, its right neighbour from
    // ring one, then the left one.
    assert_eq!(
        create_buckets(30, 10, BucketStrategy::Spiral, 10, 10),
        vec![bucket(10, 0, 10, 10), bucket(20, 0, 10, 10), bucket(0, 0, 10, 10)]
    );
}

#[test]
fn spiral_on_one_column_goes_down_before_up() {
    assert_eq!(
        create_buckets(10, 40, BucketStrategy::Spiral, 10, 10),
        vec![
            bucket(0, 20, 10, 10),
            bucket(0, 30, 10, 10),
            bucket(0, 10, 10, 10),
            bucket(0, 0, 10, 10),
        ]
    );
}

#[test]
fn spiral_on_a_wide_grid_clips_its_rings() {
    assert_eq!(
        create_buckets(4, 2, BucketStrategy::Spiral, 1, 1),
        vec![
            bucket(2, 1, 1, 1),
            bucket(3, 1, 1, 1),
            bucket(1, 1, 1, 1),
            bucket(1, 0, 1, 1),
            bucket(2, 0, 1, 1),
            bucket(3, 0, 1, 1),
            bucket(0, 1, 1, 1),
            bucket(0, 0, 1, 1),
        ]
    );
}

#[test]
fn spiral_with_only_a_bottom_strip() {
    assert_eq!(
        create_buckets(20, 15, BucketStrategy::Spiral, 10, 10),
        vec![
            bucket(10, 0, 10, 10),
            bucket(0, 0, 10, 10),
            bucket(10, 10, 10, 5),
            bucket(0, 10, 10, 5),
        ]
    );
}

#[test]
fn buckets_tile_the_image_under_both_strategies() {
    for &(w, h, bw, bh) in &[
        (1u32, 1u32, 1u32, 1u32),
        (64, 64, 64, 64),
        (65, 63, 8, 8),
        (100, 37, 7, 5),
        (37, 100, 5, 7),
        (33, 33, 40, 3),
        (33, 33, 3, 40),
        (50, 50, 1, 50),
        (97, 89, 13, 11),
    ] {
        let linear = create_buckets(w, h, BucketStrategy::Linear, bw, bh);
        let spiral = create_buckets(w, h, BucketStrategy::Spiral, bw, bh);
        assert!(exactly_tiled(&linear, w, h));
        assert!(exactly_tiled(&spiral, w, h));
        assert_eq!(linear.len(), spiral.len());
    }
}

#[test]
fn widest_image_cut_into_one_row() {
    let buckets = create_buckets(u32::MAX, 1, BucketStrategy::Spiral, 1 << 30, 1);
    assert_eq!(
        buckets,
        vec![
            bucket(1 << 30, 0, 1 << 30, 1),
            bucket(2 << 30, 0, 1 << 30, 1),
            bucket(0, 0, 1 << 30, 1),
            bucket(3 << 30, 0, (1 << 30) - 1, 1),
        ]
    );
}

/// The spiral walked in another way: ring by ring with clamped coordinates,
/// marking what was handed out so that no bucket comes twice.
fn marked_walk(image_width: u32, image_height: u32, width: u32, height: u32) -> Vec<Bucket> {
    let cols = image_width / width;
    let rows = image_height / height;
    let last_x = image_width % width;
    let last_y = image_height % height;
    let count = (cols * rows) as usize;
    let mut buckets = Vec::new();
    let mut used = vec![vec![false; cols as usize]; rows as usize];
    let mut add = |x: u32, y: u32, buckets: &mut Vec<Bucket>| {
        if y < rows && x < cols && !used[y as usize][x as usize] {
            buckets.push(bucket(x * width, y * height, width, height));
            used[y as usize][x as usize] = true;
        }
    };
    let mut spiral_x = cols / 2;
    let mut spiral_y = rows / 2;
    let mut side = 3;
    add(spiral_x, spiral_y, &mut buckets);
    spiral_x += 1;
    while buckets.len() < count {
        for y in 0..side - 1 {
            add(spiral_x, spiral_y + y, &mut buckets);
        }
        for x in 0..side - 1 {
            add(
                spiral_x.saturating_sub(x).saturating_sub(1),
                (spiral_y + side).saturating_sub(2),
                &mut buckets,
            );
        }
        for y in 0..side - 1 {
            add(
                (spiral_x + 1).saturating_sub(side),
                (spiral_y + side).saturating_sub(3).saturating_sub(y),
                &mut buckets,
            );
        }
        for x in 0..side - 1 {
            add((spiral_x + 2 + x).saturating_sub(side), spiral_y.saturating_sub(1), &mut buckets);
        }
        spiral_x += 1;
        spiral_y = spiral_y.saturating_sub(1);
        side += 2;
    }
    if last_x != 0 {
        for y in 0..rows {
            buckets.push(bucket(cols * width, y * height, last_x, height));
        }
    }
    if last_x != 0 && last_y != 0 {
        buckets.push(bucket(cols * width, rows * height, last_x, last_y));
    }
    if last_y != 0 {
        for x in (0..cols).rev() {
            buckets.push(bucket(x * width, rows * height, width, last_y));
        }
    }
    buckets
}

#[test]
fn spiral_agrees_with_the_marked_walk() {
    for image_width in 0..40 {
        for image_height in 0..40 {
            for &(width, height) in &[(1u32, 1u32), (2, 3), (3, 2), (5, 5), (7, 1), (1, 7), (64, 64)] {
                assert_eq!(
                    create_buckets(image_width, image_height, BucketStrategy::Spiral, width, height),
                    marked_walk(image_width, image_height, width, height),
                    "image {} by {}, buckets {} by {}",
                    image_width,
                    image_height,
                    width,
                    height
                );
            }
        }
    }
}
