use path_gen::{
    button_centers, get_button_centers, get_buttons, get_default_buttons_centers, Layout, Point,
};

#[test]
fn new_layout_is_empty() {
    let layout = Layout::new();
    assert_eq!(layout.len(), 0);
    assert_eq!(layout.get("a"), None);
    assert_eq!(layout.center('a'), None);
}

#[test]
fn keys_are_found_by_name() {
    let mut layout = Layout::new();
    layout.insert("a", Point { x: 1, y: 2 });
    layout.insert("space", Point { x: 3, y: 4 });
    assert_eq!(layout.len(), 2);
    assert_eq!(layout.get("a"), Some(&Point { x: 1, y: 2 }));
    assert_eq!(layout.get("space"), Some(&Point { x: 3, y: 4 }));
    assert_eq!(layout.get("s"), None);
    assert_eq!(layout.get(""), None);
}

#[test]
fn key_names_are_case_sensitive() {
    let mut layout = Layout::new();
    layout.insert("a", Point { x: 1, y: 2 });
    assert_eq!(layout.get("A"), None);
    assert_eq!(layout.center('A'), None);
    layout.insert("A", Point { x: 5, y: 6 });
    assert_eq!(layout.get("a"), Some(&Point { x: 1, y: 2 }));
    assert_eq!(layout.center('A'), Some(&Point { x: 5, y: 6 }));
    assert_eq!(layout.len(), 2);
}

#[test]
fn a_key_put_twice_is_moved() {
    let mut layout = Layout::new();
    layout.insert("a", Point { x: 1, y: 2 });
    layout.insert("a", Point { x: 7, y: 8 });
    assert_eq!(layout.len(), 1);
    assert_eq!(layout.get("a"), Some(&Point { x: 7, y: 8 }));
}

#[test]
fn a_letter_names_the_key_of_its_one_character() {
    let mut layout = Layout::new();
    layout.insert("q", Point { x: 1, y: 2 });
    layout.insert("qq", Point { x: 3, y: 4 });
    layout.insert_letter('ü', Point { x: 5, y: 6 });
    assert_eq!(layout.center('q'), Some(&Point { x: 1, y: 2 }));
    assert_eq!(layout.center('ü'), Some(&Point { x: 5, y: 6 }));
    assert_eq!(layout.get("ü"), Some(&Point { x: 5, y: 6 }));
    assert_eq!(layout.center('w'), None);
    layout.insert_letter('q', Point { x: 9, y: 9 });
    assert_eq!(layout.get("q"), Some(&Point { x: 9, y: 9 }));
    assert_eq!(layout.get("qq"), Some(&Point { x: 3, y: 4 }));
    assert_eq!(layout.len(), 3);
}

#[test]
fn default_layout_has_the_letter_keys() {
    let layout = get_default_buttons_centers();
    assert_eq!(layout.len(), 26);
    for letter in 'a'..='z' {
        assert!(layout.center(letter).is_some());
    }
    assert_eq!(layout.center('A'), None);
    assert_eq!(layout.center('ü'), None);
    assert_eq!(layout.get("space"), None);
}

#[test]
fn default_layout_rows() {
    let layout = get_default_buttons_centers();
    let top = "qwertyuiop";
    for (col, letter) in top.chars().enumerate() {
        let x = 50_000_000 + 100_000_000 * col as i32;
        assert_eq!(layout.center(letter), Some(&Point { x, y: 50_000_000 }));
    }
    let home = "asdfghjkl";
    for (col, letter) in home.chars().enumerate() {
        let x = 100_000_000 + 100_000_000 * col as i32;
        assert_eq!(layout.center(letter), Some(&Point { x, y: 150_000_000 }));
    }
    let bottom = "zxcvbnm";
    for (col, letter) in bottom.chars().enumerate() {
        let x = 150_000_000 + 100_000_000 * col as i32;
        assert_eq!(layout.center(letter), Some(&Point { x, y: 250_000_000 }));
    }
}

#[test]
fn keyboard_cells() {
    let cells = get_buttons();
    assert_eq!(cells.len(), 78);
    assert_eq!(cells[0], (".".to_string(), 775_000_000, 875_000_000));
    assert_eq!(cells[1], ("GBA".to_string(), 125_000_000, 875_000_000));
    assert_eq!(cells[77], ("r".to_string(), 325_000_000, 125_000_000));
    let spaces = cells.iter().filter(|c| c.0 == "space").count();
    assert_eq!(spaces, 8);
}

#[test]
fn keyboard_key_centers() {
    let layout = get_button_centers();
    assert_eq!(layout.len(), 34);
    assert_eq!(layout.get("space"), Some(&Point { x: 500_000_000, y: 875_000_000 }));
    assert_eq!(layout.get("BackSpace"), Some(&Point { x: 900_000_000, y: 625_000_000 }));
    assert_eq!(layout.get("Return"), Some(&Point { x: 900_000_000, y: 875_000_000 }));
    assert_eq!(layout.get("a"), Some(&Point { x: 100_000_000, y: 375_000_000 }));
    assert_eq!(layout.get("m"), Some(&Point { x: 750_000_000, y: 625_000_000 }));
    assert_eq!(layout.get(":)"), Some(&Point { x: 250_000_000, y: 875_000_000 }));
    assert_eq!(layout.get("Shift_L_base"), Some(&Point { x: 50_000_000, y: 625_000_000 }));
    assert_eq!(layout.get("Tab"), None);
}

#[test]
fn key_center_is_the_mean_of_its_cells() {
    let cells = vec![
        ("k".to_string(), 10, 100),
        ("j".to_string(), 1, 1),
        ("k".to_string(), 20, 300),
        ("k".to_string(), 60, 200),
    ];
    let layout = button_centers(&cells);
    assert_eq!(layout.len(), 2);
    assert_eq!(layout.get("k"), Some(&Point { x: 30, y: 200 }));
    assert_eq!(layout.get("j"), Some(&Point { x: 1, y: 1 }));
}

#[test]
fn key_center_rounds_towards_zero() {
    let cells = vec![
        ("k".to_string(), 1, -1),
        ("k".to_string(), 2, -2),
    ];
    let layout = button_centers(&cells);
    assert_eq!(layout.get("k"), Some(&Point { x: 1, y: -1 }));
}

#[test]
fn key_centers_at_the_edge_of_the_grid() {
    let cells = vec![
        ("k".to_string(), i32::MAX, i32::MIN),
        ("k".to_string(), i32::MAX, i32::MIN),
        ("k".to_string(), i32::MAX, i32::MIN),
    ];
    let layout = button_centers(&cells);
    assert_eq!(layout.get("k"), Some(&Point { x: i32::MAX, y: i32::MIN }));
}

#[test]
fn no_cells_no_keys() {
    let layout = button_centers(&Vec::new());
    assert_eq!(layout.len(), 0);
}
