use path_gen::{get_default_buttons_centers, Layout, Point, Resampling, WordPath};

fn subset() -> Layout {
    let mut layout = Layout::new();
    layout.insert("u", Point { x: 650_000_000, y: 50_000_000 });
    layout.insert("k", Point { x: 800_000_000, y: 150_000_000 });
    layout.insert("e", Point { x: 250_000_000, y: 50_000_000 });
    layout.insert("l", Point { x: 900_000_000, y: 150_000_000 });
    layout.insert("o", Point { x: 850_000_000, y: 50_000_000 });
    layout.insert("h", Point { x: 600_000_000, y: 150_000_000 });
    layout
}

#[test]
fn hello_on_a_subset_of_keys() {
    let layout = subset();
    let word_path = WordPath::new(&layout, "hello");
    let path = word_path.get_path(100_000_000).unwrap();
    assert_eq!(path.len(), 12);
    assert_eq!(path[0], Point { x: 600_000_000, y: 150_000_000 });
    assert_eq!(path[11], Point { x: 850_000_000, y: 50_000_000 });
    let dense = word_path.get_path(10_000_000).unwrap();
    assert_eq!(dense.len(), 114);
    assert_eq!(dense[0], Point { x: 600_000_000, y: 150_000_000 });
    assert_eq!(dense[113], Point { x: 850_000_000, y: 50_000_000 });
}

#[test]
fn hello_point_by_point() {
    let layout = subset();
    let path = WordPath::new(&layout, "hello").get_path(100_000_000).unwrap();
    let expected = vec![
        Point { x: 600_000_000, y: 150_000_000 },
        Point { x: 483_333_334, y: 116_666_667 },
        Point { x: 366_666_667, y: 83_333_334 },
        Point { x: 250_000_000, y: 50_000_000 },
        Point { x: 342_857_142, y: 64_285_714 },
        Point { x: 435_714_285, y: 78_571_428 },
        Point { x: 528_571_428, y: 92_857_142 },
        Point { x: 621_428_571, y: 107_142_857 },
        Point { x: 714_285_714, y: 121_428_571 },
        Point { x: 807_142_857, y: 135_714_285 },
        Point { x: 900_000_000, y: 150_000_000 },
        Point { x: 850_000_000, y: 50_000_000 },
    ];
    assert_eq!(path, expected);
}

#[test]
fn empty_word_has_no_path_under_any_policy() {
    let layouts = vec![Layout::new(), subset(), get_default_buttons_centers()];
    for layout in &layouts {
        let word_path = WordPath::new(layout, "");
        assert!(word_path.get_path(100_000_000).is_none());
        assert!(word_path.get_path(1).is_none());
        assert!(word_path.get_path_with(Resampling::Density(100_000_000)).is_none());
        assert!(word_path.get_path_with(Resampling::Count(0)).is_none());
        assert!(word_path.get_path_with(Resampling::Count(1)).is_none());
        assert!(word_path.get_path_with(Resampling::Count(100)).is_none());
        assert!(word_path.ideal_waypoints().is_none());
        let (first, last) = word_path.get_first_last_points();
        assert!(first.is_none() && last.is_none());
    }
}

#[test]
fn one_letter_word() {
    let layout = get_default_buttons_centers();
    let word_path = WordPath::new(&layout, "i");
    let key = Point { x: 750_000_000, y: 50_000_000 };
    let (first, last) = word_path.get_first_last_points();
    assert_eq!(first, Some(&key));
    assert_eq!(last, None);
    let path = word_path.get_path_with(Resampling::Count(1)).unwrap();
    assert_eq!(path, vec![key]);
    assert_eq!(path[0], path[path.len() - 1]);
    let path = word_path.get_path_with(Resampling::Count(3)).unwrap();
    assert_eq!(path, vec![key, key, key]);
    assert!(word_path.get_path_with(Resampling::Count(0)).is_none());
    assert_eq!(word_path.get_path(100_000_000), Some(vec![key]));
}

#[test]
fn ends_are_looked_up_on_their_own() {
    let layout = get_default_buttons_centers();
    let h = Point { x: 600_000_000, y: 150_000_000 };
    let o = Point { x: 850_000_000, y: 50_000_000 };
    for word in ["ho", "hello", "h-o", "hÜÜÜÜo", "h1234567890o", "Hxo", "HO"] {
        let word_path = WordPath::new(&layout, word);
        let (first, last) = word_path.get_first_last_points();
        assert_eq!(first, Some(&h));
        assert_eq!(last, Some(&o));
    }
    let word_path = WordPath::new(&layout, "hello!");
    let (first, last) = word_path.get_first_last_points();
    assert_eq!(first, Some(&h));
    assert_eq!(last, None);
    let word_path = WordPath::new(&layout, "?hello");
    let (first, last) = word_path.get_first_last_points();
    assert_eq!(first, None);
    assert_eq!(last, Some(&o));
}

#[test]
fn a_letter_without_a_key_leaves_no_path() {
    let layout = get_default_buttons_centers();
    for word in ["h-o", "hello!", "?hello", "hel lo", "é"] {
        let word_path = WordPath::new(&layout, word);
        assert!(word_path.ideal_waypoints().is_none());
        assert!(word_path.get_path(100_000_000).is_none());
        assert!(word_path.get_path_with(Resampling::Count(50)).is_none());
    }
}

#[test]
fn waypoints_of_a_word() {
    let layout = get_default_buttons_centers();
    let word_path = WordPath::new(&layout, "hello");
    let waypoints = word_path.ideal_waypoints().unwrap();
    let expected = vec![
        Point { x: 600_000_000, y: 150_000_000 },
        Point { x: 250_000_000, y: 50_000_000 },
        Point { x: 900_000_000, y: 150_000_000 },
        Point { x: 850_000_000, y: 50_000_000 },
    ];
    assert_eq!(waypoints.points(), &expected);
    assert_eq!(waypoints.length(), 364_005_494 + 657_647_321 + 111_803_398);
}

#[test]
fn letters_on_one_key_share_a_waypoint() {
    let mut layout = Layout::new();
    layout.insert("a", Point { x: 100, y: 100 });
    layout.insert("b", Point { x: 100, y: 100 });
    layout.insert("c", Point { x: 150, y: 100 });
    layout.insert("d", Point { x: 5_000, y: 100 });
    // as many waypoints as letters where no two letters in a row share a key
    let apart = WordPath::new(&layout, "adbd").ideal_waypoints().unwrap();
    assert_eq!(apart.points().len(), 4);
    // fewer where two do
    let shared = WordPath::new(&layout, "abd").ideal_waypoints().unwrap();
    assert_eq!(shared.points(), &vec![Point { x: 100, y: 100 }, Point { x: 5_000, y: 100 }]);
    let near = WordPath::new(&layout, "acd").ideal_waypoints().unwrap();
    assert_eq!(near.points(), &vec![Point { x: 100, y: 100 }, Point { x: 5_000, y: 100 }]);
    assert_eq!(near.length(), 4_900);
    let one = WordPath::new(&layout, "abcba").ideal_waypoints().unwrap();
    assert_eq!(one.points(), &vec![Point { x: 100, y: 100 }]);
    assert_eq!(one.length(), 0);
}

#[test]
fn mixed_case_neighbours_share_a_waypoint() {
    let layout = get_default_buttons_centers();
    // "hELlO" keeps both of "Ll" in its normal form; their one key makes one waypoint
    let plain = WordPath::new(&layout, "hello").ideal_waypoints().unwrap();
    let mixed = WordPath::new(&layout, "hELlO").ideal_waypoints().unwrap();
    assert_eq!(plain.points(), mixed.points());
    assert_eq!(plain.length(), mixed.length());
}

#[test]
fn a_word_in_so_many_points() {
    let layout = get_default_buttons_centers();
    let word_path = WordPath::new(&layout, "hello");
    assert!(word_path.get_path_with(Resampling::Count(3)).is_none());
    let five = word_path.get_path_with(Resampling::Count(5)).unwrap();
    let expected = vec![
        Point { x: 600_000_000, y: 150_000_000 },
        Point { x: 250_000_000, y: 50_000_000 },
        Point { x: 575_000_000, y: 100_000_000 },
        Point { x: 900_000_000, y: 150_000_000 },
        Point { x: 850_000_000, y: 50_000_000 },
    ];
    assert_eq!(five, expected);
    let twenty = word_path.get_path_with(Resampling::Count(20)).unwrap();
    assert_eq!(twenty.len(), 20);
    assert_eq!(twenty[0], Point { x: 600_000_000, y: 150_000_000 });
    assert_eq!(twenty[1], Point { x: 541_666_667, y: 133_333_334 });
    assert_eq!(twenty[2], Point { x: 483_333_334, y: 116_666_667 });
    assert_eq!(twenty[18], Point { x: 875_000_000, y: 100_000_000 });
    assert_eq!(twenty[19], Point { x: 850_000_000, y: 50_000_000 });
}

#[test]
fn density_path_of_given_waypoints() {
    let layout = Layout::new();
    let word_path = WordPath::new(&layout, "");
    let waypoints = vec![Point { x: 0, y: 0 }, Point { x: 150, y: 0 }, Point { x: 300, y: 0 }];
    let path = word_path.ideal_path_interpolated(waypoints.clone(), 100).unwrap();
    let expected = vec![
        Point { x: 0, y: 0 },
        Point { x: 150, y: 0 },
        Point { x: 225, y: 0 },
        Point { x: 300, y: 0 },
    ];
    assert_eq!(path, expected);
    assert_eq!(word_path.ideal_path_interpolated(waypoints.clone(), 0), None);
    assert_eq!(word_path.ideal_path_interpolated(waypoints, -100), None);
    assert_eq!(word_path.ideal_path_interpolated(Vec::new(), 100), None);
    let single = vec![Point { x: 9, y: 9 }];
    assert_eq!(word_path.ideal_path_interpolated(single.clone(), 100), Some(single));
}

#[test]
fn get_path_is_the_density_policy() {
    let layout = get_default_buttons_centers();
    for word in ["hello", "spaceship", "i", "", "h-o"] {
        let word_path = WordPath::new(&layout, word);
        for density in [-5, 0, 1_000_000, 100_000_000, 2_000_000_000] {
            assert_eq!(
                word_path.get_path(density),
                word_path.get_path_with(Resampling::Density(density))
            );
        }
    }
}

#[test]
fn words_with_one_normal_form_have_one_path() {
    let layout = get_default_buttons_centers();
    let plain = WordPath::new(&layout, "helo");
    for word in ["hello", "HELLO", "hheelloo", "HHello"] {
        let other = WordPath::new(&layout, word);
        assert_eq!(plain.get_path(30_000_000), other.get_path(30_000_000));
        assert_eq!(
            plain.get_path_with(Resampling::Count(40)),
            other.get_path_with(Resampling::Count(40))
        );
        assert_eq!(plain.get_first_last_points(), other.get_first_last_points());
    }
}

#[test]
fn case_does_not_count_for_the_path() {
    let layout = get_default_buttons_centers();
    for (one, other) in [("Aa", "aa"), ("aA", "a"), ("hELlO", "hello"), ("SpAcEsHiP", "spaceship"), ("BOok", "book")] {
        let a = WordPath::new(&layout, one);
        let b = WordPath::new(&layout, other);
        assert!(a.get_path(20_000_000).is_some());
        assert_eq!(a.get_path(20_000_000), b.get_path(20_000_000));
        assert_eq!(
            a.get_path_with(Resampling::Count(25)),
            b.get_path_with(Resampling::Count(25))
        );
        assert_eq!(a.get_first_last_points().0, b.get_first_last_points().0);
    }
    // the last key is looked up only in a normal form of two letters or more
    let a = WordPath::new(&layout, "Aa");
    let b = WordPath::new(&layout, "aa");
    assert_eq!(a.get_first_last_points().1, Some(&Point { x: 100_000_000, y: 150_000_000 }));
    assert_eq!(b.get_first_last_points().1, None);
}
