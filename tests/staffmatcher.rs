use staffdetect::staff::{Area, Staff};
use staffdetect::staffmatcher::{StaffMatcher, StaffMatcherError};

fn generate_staff_image(pattern: Vec<i32>, width: usize) -> (Vec<(usize, usize)>, usize) {
    let mut result: Vec<(usize, usize)> = Vec::new();
    let mut y: usize = 0;

    for p in pattern {
        let height = p.abs() as usize;
        for y in y..(y + height) {
            if p > 0 {
                (0..width).for_each(|x| result.push((x, y)));
            }
        }
        y += height;
    }

    (result, y)
}

fn matcher_for(pattern: Vec<i32>, width: usize) -> StaffMatcher {
    let (pixel_arr, height) = generate_staff_image(pattern, width);
    let mut matcher = StaffMatcher::new(width, height);
    pixel_arr.iter().for_each(|(x, y)| matcher.add_black_pixel(*x, *y));
    matcher
}

fn all_staves(matcher: &mut StaffMatcher) -> Vec<Staff> {
    let mut iter = matcher.iter().unwrap();
    let mut staves = Vec::new();
    while let Some(staff) = iter.next() {
        staves.push(staff);
    }
    staves
}

fn family(line: usize, spacing: usize) -> Vec<Area> {
    (0..9)
        .map(|i| if i % 2 == 0 { Area::Line(line) } else { Area::Spacing(spacing) })
        .collect()
}

#[test]
fn test_prepare_staff() {
    let width = 10;
    let pattern = vec![-1, -2, 3, 4, -5, 6, -7];

    let (pixel_arr, height) = generate_staff_image(pattern, width);

    let mut matcher = StaffMatcher::new(width, height);

    pixel_arr.iter().for_each(|(x, y)| matcher.add_black_pixel(*x, *y));

    let result = vec![
        Area::Spacing(3),
        Area::Line(7),
        Area::Spacing(5),
        Area::Line(6),
        Area::Spacing(7),
    ];

    matcher.prepare().unwrap();

    assert_eq!(result, matcher.area_vec);
}

#[test]
fn test_add_point() {
    let mut matcher = StaffMatcher::new(10, 1);

    for x in 0..10 {
        matcher.add_black_pixel(x, 0);
    }

    assert_eq!(vec![true; 10], matcher.pixel_arr);
}

#[test]
fn test_staff_matched() {
    let width = 10;
    let pattern = vec![-2, 3, -4, 3, -5, 3, -5, 3, -5, 3, -5, 3];

    let (pixel_arr, height) = generate_staff_image(pattern, width);

    let mut matcher = StaffMatcher::new(width, height);

    pixel_arr.iter().for_each(|(x, y)| matcher.add_black_pixel(*x, *y));

    assert_eq!(true, matcher.iter().unwrap().next().unwrap().complete);
}

#[test]
fn test_two_staff_matched() {
    let width = 10;
    let pattern = vec![
        -2, 3, -4, 3, -5, 3, -5, 3, -5, 3, -5, 3, -2, -4, 2, -2, 2, -2, 2, -2, 2, -2, 2,
    ];

    let (pixel_arr, height) = generate_staff_image(pattern, width);

    let mut matcher = StaffMatcher::new(width, height);

    pixel_arr.iter().for_each(|(x, y)| matcher.add_black_pixel(*x, *y));

    let mut iter = matcher.iter().unwrap();

    assert!(iter.next().unwrap().complete);
    assert!(iter.next().unwrap().complete);
}

#[test]
fn test_staff_not_matched() {
    let width = 10;
    let pattern = vec![-2, 3, -4, 3, -5, 3, -5, 3, -5, 3, -2];

    let (pixel_arr, height) = generate_staff_image(pattern, width);

    let mut matcher = StaffMatcher::new(width, height);

    pixel_arr.iter().for_each(|(x, y)| matcher.add_black_pixel(*x, *y));

    assert!(matcher.iter().unwrap().next().is_none());
}

#[test]
fn prepare_refuses_null_width() {
    let mut matcher = StaffMatcher::new(0, 10);
    assert_eq!(Err(StaffMatcherError::EmptyArea), matcher.prepare());
    assert!(matches!(matcher.iter(), Err(StaffMatcherError::EmptyArea)));
}

#[test]
fn prepare_refuses_null_height() {
    let mut matcher = StaffMatcher::new(10, 0);
    assert_eq!(Err(StaffMatcherError::EmptyArea), matcher.prepare());
    assert!(matches!(matcher.iter(), Err(StaffMatcherError::EmptyArea)));
}

#[test]
fn new_grid_is_blank() {
    let matcher = StaffMatcher::new(4, 3);
    assert_eq!(vec![false; 12], matcher.pixel_arr);
    assert!(matcher.area_vec.is_empty());
}

#[test]
fn out_of_bounds_pixels_are_ignored() {
    let mut matcher = StaffMatcher::new(10, 2);
    matcher.add_black_pixel(12, 0);
    matcher.add_black_pixel(10, 0);
    matcher.add_black_pixel(0, 2);
    matcher.add_black_pixel(usize::MAX, usize::MAX);
    assert_eq!(vec![false; 20], matcher.pixel_arr);
    matcher.add_black_pixel(3, 1);
    let mut expected = vec![false; 20];
    expected[13] = true;
    assert_eq!(expected, matcher.pixel_arr);
}

#[test]
fn row_at_exactly_half_ink_is_a_line() {
    let mut matcher = StaffMatcher::new(10, 3);
    for x in 0..5 {
        matcher.add_black_pixel(x, 1);
    }
    for x in 0..4 {
        matcher.add_black_pixel(x, 2);
    }
    matcher.prepare().unwrap();
    assert_eq!(
        vec![Area::Spacing(1), Area::Line(1), Area::Spacing(1)],
        matcher.area_vec
    );
}

#[test]
fn prepare_is_idempotent_and_recomputes() {
    let mut matcher = matcher_for(vec![-2, 3, -1], 4);
    matcher.prepare().unwrap();
    let first = matcher.area_vec.clone();
    matcher.prepare().unwrap();
    assert_eq!(first, matcher.area_vec);
    assert_eq!(vec![Area::Spacing(2), Area::Line(3), Area::Spacing(1)], first);
    for x in 0..4 {
        matcher.add_black_pixel(x, 5);
    }
    matcher.prepare().unwrap();
    assert_eq!(vec![Area::Spacing(2), Area::Line(4)], matcher.area_vec);
}

#[test]
fn single_staff_scenario() {
    let mut matcher = matcher_for(vec![-2, 3, -5, 3, -5, 3, -5, 3, -5, 3, -2], 10);
    let staves = all_staves(&mut matcher);
    assert_eq!(1, staves.len());
    assert_eq!(family(3, 5), staves[0].areas().to_vec());
    assert!(staves[0].complete);
}

#[test]
fn two_staves_scenario_in_order() {
    let mut matcher = matcher_for(
        vec![-2, 3, -4, 3, -5, 3, -5, 3, -5, 3, -5, 3, -2, -4, 2, -2, 2, -2, 2, -2, 2, -2, 2],
        10,
    );
    let staves = all_staves(&mut matcher);
    assert_eq!(2, staves.len());
    assert_eq!(family(3, 5), staves[0].areas().to_vec());
    assert_eq!(family(2, 2), staves[1].areas().to_vec());
}

#[test]
fn no_staff_scenario() {
    let mut matcher = matcher_for(vec![-2, 3, -4, 3, -5, 3, -5, 3, -5, 3, -2], 10);
    assert!(all_staves(&mut matcher).is_empty());
}

#[test]
fn exhausted_scan_stays_empty() {
    let mut matcher = matcher_for(vec![-2, 3, -5, 3, -5, 3, -5, 3, -5, 3, -2], 10);
    let mut iter = matcher.iter().unwrap();
    assert!(iter.next().is_some());
    assert!(iter.next().is_none());
    assert!(iter.next().is_none());
    assert!(iter.next().is_none());
}

#[test]
fn yielded_staves_alternate_and_hold_nine() {
    let mut matcher = matcher_for(
        vec![-2, 3, -4, 3, -5, 3, -5, 3, -5, 3, -5, 3, -2, -4, 2, -2, 2, -2, 2, -2, 2, -2, 2],
        10,
    );
    for staff in all_staves(&mut matcher) {
        assert!(staff.complete);
        assert_eq!(9, staff.areas().len());
        for (i, a) in staff.areas().iter().enumerate() {
            assert_eq!(i % 2 == 0, matches!(a, Area::Line(_)));
        }
    }
}
