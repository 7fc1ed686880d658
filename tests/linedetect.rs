use staffdetect::linedetect::{ImgPatternMatcher, Pattern, Raster};

fn generate_image_with_lines() -> Raster {
    let mut samples = Vec::new();
    for y in 0..5u32 {
        for _x in 0..11u32 {
            samples.push(if y == 2 { 0u8 } else { 255u8 });
        }
    }
    Raster::new(11, 5, samples).unwrap()
}

fn collect(matcher: &ImgPatternMatcher) -> Vec<(u32, u32)> {
    let mut it = matcher.iter();
    let mut out = Vec::new();
    while let Some(p) = it.next() {
        out.push(p);
    }
    out
}

#[test]
fn test_iter_on_matcher() {
    let image = generate_image_with_lines();
    let pattern = Pattern::Staff(5, 1, vec![0; 5]);
    let img_pattern_match = ImgPatternMatcher::new(&image, pattern);
    let matched_pixels: Vec<(u32, u32)> = collect(&img_pattern_match);

    assert_eq!(vec![(2, 2), (3, 2), (4, 2), (5, 2), (6, 2), (7, 2), (8, 2)], matched_pixels);
}

#[test]
fn pattern_size_incorrect_does_not_fit() {
    let image = generate_image_with_lines();
    assert!(!Pattern::Staff(4, 1, vec![0; 5]).fits(&image));
}

#[test]
fn pattern_greater_than_image_does_not_fit() {
    let image = generate_image_with_lines();
    assert!(!Pattern::Staff(15, 1, vec![0; 15]).fits(&image));
    assert!(!Pattern::Staff(11, 1, vec![0; 11]).fits(&image));
    assert!(!Pattern::Staff(1, 5, vec![0; 5]).fits(&image));
}

#[test]
fn even_pattern_does_not_fit() {
    let image = generate_image_with_lines();
    assert!(!Pattern::Staff(4, 2, vec![0; 8]).fits(&image));
}

#[test]
fn odd_smaller_pattern_fits() {
    let image = generate_image_with_lines();
    assert!(Pattern::Staff(5, 1, vec![0; 5]).fits(&image));
    assert!(Pattern::Staff(9, 3, vec![0; 27]).fits(&image));
}

#[test]
fn raster_needs_one_sample_per_pixel() {
    assert!(Raster::new(3, 2, vec![0; 5]).is_none());
    let r = Raster::new(3, 2, vec![7; 6]).unwrap();
    assert_eq!((3, 2), (r.width, r.height));
    assert_eq!(vec![7; 6], r.samples);
}

#[test]
fn two_scans_yield_the_same_sequence() {
    let image = generate_image_with_lines();
    let m1 = ImgPatternMatcher::new(&image, Pattern::Staff(5, 1, vec![0; 5]));
    let m2 = ImgPatternMatcher::new(&image, Pattern::Staff(5, 1, vec![0; 5]));
    let a = collect(&m1);
    let b = collect(&m1);
    let c = collect(&m2);
    assert_eq!(a, b);
    assert_eq!(a, c);
    assert_eq!(7, a.len());
}

#[test]
fn last_anchor_is_yielded() {
    let mut samples = vec![255u8; 14];
    samples.extend(vec![0u8; 7]);
    let image = Raster::new(7, 3, samples).unwrap();
    let m = ImgPatternMatcher::new(&image, Pattern::Staff(5, 1, vec![0; 5]));
    assert_eq!(vec![(2, 2), (3, 2), (4, 2)], collect(&m));
    let mut it = m.iter();
    for _ in 0..3 {
        assert!(it.next().is_some());
    }
    assert!(it.next().is_none());
    assert!(it.next().is_none());
}

#[test]
fn gray_128_agrees_with_both_tones() {
    // 128 is neither below nor above the threshold, so it never disagrees
    let image = Raster::new(3, 3, vec![128u8; 9]).unwrap();
    let ink = ImgPatternMatcher::new(&image, Pattern::Staff(1, 1, vec![0]));
    assert_eq!(9, collect(&ink).len());
    let paper = ImgPatternMatcher::new(&image, Pattern::Staff(1, 1, vec![255]));
    assert_eq!(9, collect(&paper).len());
}

#[test]
fn single_disagreement_rejects_window() {
    // a 3x3 ink template over a raster with one paper pixel at (2, 2)
    let mut samples = vec![0u8; 25];
    samples[2 * 5 + 2] = 200;
    let image = Raster::new(5, 5, samples).unwrap();
    let m = ImgPatternMatcher::new(&image, Pattern::Staff(3, 3, vec![10; 9]));
    // every 3x3 window of a 5x5 raster covers (2, 2)
    assert!(collect(&m).is_empty());
    let m = ImgPatternMatcher::new(&image, Pattern::Staff(1, 1, vec![10]));
    let centers = collect(&m);
    assert_eq!(24, centers.len());
    assert!(!centers.contains(&(2, 2)));
    assert_eq!((0, 0), centers[0]);
    assert_eq!((4, 4), centers[23]);
}

#[test]
fn paper_template_finds_paper_rows() {
    let image = generate_image_with_lines();
    let m = ImgPatternMatcher::new(&image, Pattern::Staff(9, 3, vec![255; 27]));
    // anchors y in 0..=2; every 3-row window covers row 2, which is ink
    assert!(collect(&m).is_empty());
    let m = ImgPatternMatcher::new(&image, Pattern::Staff(9, 1, vec![255; 9]));
    let centers = collect(&m);
    assert_eq!(12, centers.len());
    assert_eq!((4, 0), centers[0]);
    assert_eq!((6, 4), centers[11]);
}
