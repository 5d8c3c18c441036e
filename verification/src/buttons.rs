//! Key layouts that come with the library: the standard letter keys, and the
//! cells of a full keyboard from which key centres are averaged.

use crate::geometry::Point;
use crate::layout::Layout;
use vstd::hash_map::StringHashMap;
use vstd::prelude::*;
use vstd::string::StringExecFns;

verus! {

/// Where the standard layout has the key of a lower-case letter: three
/// staggered rows of keys a tenth of the keyboard wide.
pub open spec fn default_center(letter: char) -> Point {
    match letter {
        'a' => Point { x: 100_000_000, y: 150_000_000 },
        'b' => Point { x: 550_000_000, y: 250_000_000 },
        'c' => Point { x: 350_000_000, y: 250_000_000 },
        'd' => Point { x: 300_000_000, y: 150_000_000 },
        'e' => Point { x: 250_000_000, y: 50_000_000 },
        'f' => Point { x: 400_000_000, y: 150_000_000 },
        'g' => Point { x: 500_000_000, y: 150_000_000 },
        'h' => Point { x: 600_000_000, y: 150_000_000 },
        'i' => Point { x: 750_000_000, y: 50_000_000 },
        'j' => Point { x: 700_000_000, y: 150_000_000 },
        'k' => Point { x: 800_000_000, y: 150_000_000 },
        'l' => Point { x: 900_000_000, y: 150_000_000 },
        'm' => Point { x: 750_000_000, y: 250_000_000 },
        'n' => Point { x: 650_000_000, y: 250_000_000 },
        'o' => Point { x: 850_000_000, y: 50_000_000 },
        'p' => Point { x: 950_000_000, y: 50_000_000 },
        'q' => Point { x: 50_000_000, y: 50_000_000 },
        'r' => Point { x: 350_000_000, y: 50_000_000 },
        's' => Point { x: 200_000_000, y: 150_000_000 },
        't' => Point { x: 450_000_000, y: 50_000_000 },
        'u' => Point { x: 650_000_000, y: 50_000_000 },
        'v' => Point { x: 450_000_000, y: 250_000_000 },
        'w' => Point { x: 150_000_000, y: 50_000_000 },
        'x' => Point { x: 250_000_000, y: 250_000_000 },
        'y' => Point { x: 550_000_000, y: 50_000_000 },
        'z' => Point { x: 150_000_000, y: 250_000_000 },
        _ => Point { x: 0, y: 0 },
    }
}

/// The name of a letter key of the standard layout: one lower-case letter.
pub open spec fn is_letter_key(name: Seq<char>) -> bool {
    name.len() == 1 && 'a' <= name[0] && name[0] <= 'z'
}

/// The standard layout: the keys `a` to `z`, each where `default_center` has it.
pub open spec fn default_centers() -> Map<Seq<char>, Point> {
    Map::new(|name: Seq<char>| is_letter_key(name), |name: Seq<char>| default_center(name[0]))
}

/// The standard layout of the 26 letter keys.
pub fn get_default_buttons_centers() -> (buttons: Layout)
    ensures
        buttons@ == default_centers(),
{
    let mut buttons: Layout = Layout::new();
    buttons.insert_letter('a', Point { x: 100_000_000, y: 150_000_000 });
    buttons.insert_letter('b', Point { x: 550_000_000, y: 250_000_000 });
    buttons.insert_letter('c', Point { x: 350_000_000, y: 250_000_000 });
    buttons.insert_letter('d', Point { x: 300_000_000, y: 150_000_000 });
    buttons.insert_letter('e', Point { x: 250_000_000, y: 50_000_000 });
    buttons.insert_letter('f', Point { x: 400_000_000, y: 150_000_000 });
    buttons.insert_letter('g', Point { x: 500_000_000, y: 150_000_000 });
    buttons.insert_letter('h', Point { x: 600_000_000, y: 150_000_000 });
    buttons.insert_letter('i', Point { x: 750_000_000, y: 50_000_000 });
    buttons.insert_letter('j', Point { x: 700_000_000, y: 150_000_000 });
    buttons.insert_letter('k', Point { x: 800_000_000, y: 150_000_000 });
    buttons.insert_letter('l', Point { x: 900_000_000, y: 150_000_000 });
    buttons.insert_letter('m', Point { x: 750_000_000, y: 250_000_000 });
    buttons.insert_letter('n', Point { x: 650_000_000, y: 250_000_000 });
    buttons.insert_letter('o', Point { x: 850_000_000, y: 50_000_000 });
    buttons.insert_letter('p', Point { x: 950_000_000, y: 50_000_000 });
    buttons.insert_letter('q', Point { x: 50_000_000, y: 50_000_000 });
    buttons.insert_letter('r', Point { x: 350_000_000, y: 50_000_000 });
    buttons.insert_letter('s', Point { x: 200_000_000, y: 150_000_000 });
    buttons.insert_letter('t', Point { x: 450_000_000, y: 50_000_000 });
    buttons.insert_letter('u', Point { x: 650_000_000, y: 50_000_000 });
    buttons.insert_letter('v', Point { x: 450_000_000, y: 250_000_000 });
    buttons.insert_letter('w', Point { x: 150_000_000, y: 50_000_000 });
    buttons.insert_letter('x', Point { x: 250_000_000, y: 250_000_000 });
    buttons.insert_letter('y', Point { x: 550_000_000, y: 50_000_000 });
    buttons.insert_letter('z', Point { x: 150_000_000, y: 250_000_000 });
    proof {
        assert forall|name: Seq<char>| is_letter_key(name) implies name == seq![name[0]] by {
            assert(name =~= seq![name[0]]);
        }
        assert(buttons@ =~= default_centers());
    }
    buttons
}

/// The cells of the full keyboard: for each cell the name of the key that
/// covers it and the cell's centre. A key wider than one cell has several.
pub open spec fn button_cells() -> Seq<(Seq<char>, int, int)> {
    seq![
        ("."@, 775_000_000int, 875_000_000int),
        ("GBA"@, 125_000_000int, 875_000_000int),
        ("g"@, 525_000_000int, 375_000_000int),
        ("o"@, 825_000_000int, 125_000_000int),
        ("r"@, 375_000_000int, 125_000_000int),
        ("l"@, 925_000_000int, 375_000_000int),
        ("d"@, 325_000_000int, 375_000_000int),
        ("k"@, 825_000_000int, 375_000_000int),
        ("q"@, 75_000_000int, 125_000_000int),
        ("Shift_L_base"@, 25_000_000int, 625_000_000int),
        (":)"@, 275_000_000int, 875_000_000int),
        ("space"@, 525_000_000int, 875_000_000int),
        ("i"@, 775_000_000int, 125_000_000int),
        ("k"@, 775_000_000int, 375_000_000int),
        ("BackSpace"@, 975_000_000int, 625_000_000int),
        ("BackSpace"@, 875_000_000int, 625_000_000int),
        ("b"@, 575_000_000int, 625_000_000int),
        ("Return"@, 825_000_000int, 875_000_000int),
        ("space"@, 475_000_000int, 875_000_000int),
        ("space"@, 375_000_000int, 875_000_000int),
        ("t"@, 425_000_000int, 125_000_000int),
        ("w"@, 175_000_000int, 125_000_000int),
        ("v"@, 425_000_000int, 625_000_000int),
        ("j"@, 725_000_000int, 375_000_000int),
        ("i"@, 725_000_000int, 125_000_000int),
        ("y"@, 575_000_000int, 125_000_000int),
        ("j"@, 675_000_000int, 375_000_000int),
        ("f"@, 375_000_000int, 375_000_000int),
        ("n"@, 625_000_000int, 625_000_000int),
        ("space"@, 575_000_000int, 875_000_000int),
        ("show_numbers"@, 75_000_000int, 875_000_000int),
        ("z"@, 125_000_000int, 625_000_000int),
        ("w"@, 125_000_000int, 125_000_000int),
        ("Shift_L_base"@, 75_000_000int, 625_000_000int),
        ("."@, 725_000_000int, 875_000_000int),
        ("space"@, 325_000_000int, 875_000_000int),
        ("s"@, 175_000_000int, 375_000_000int),
        ("q"@, 25_000_000int, 125_000_000int),
        ("g"@, 475_000_000int, 375_000_000int),
        ("u"@, 625_000_000int, 125_000_000int),
        ("c"@, 375_000_000int, 625_000_000int),
        ("x"@, 275_000_000int, 625_000_000int),
        ("space"@, 425_000_000int, 875_000_000int),
        ("n"@, 675_000_000int, 625_000_000int),
        ("BackSpace"@, 925_000_000int, 625_000_000int),
        ("o"@, 875_000_000int, 125_000_000int),
        ("d"@, 275_000_000int, 375_000_000int),
        ("GBA"@, 175_000_000int, 875_000_000int),
        ("y"@, 525_000_000int, 125_000_000int),
        ("Return"@, 875_000_000int, 875_000_000int),
        ("h"@, 625_000_000int, 375_000_000int),
        ("a"@, 125_000_000int, 375_000_000int),
        ("p"@, 925_000_000int, 125_000_000int),
        ("l"@, 875_000_000int, 375_000_000int),
        ("t"@, 475_000_000int, 125_000_000int),
        ("space"@, 625_000_000int, 875_000_000int),
        ("BackSpace"@, 825_000_000int, 625_000_000int),
        ("Return"@, 975_000_000int, 875_000_000int),
        ("z"@, 175_000_000int, 625_000_000int),
        ("show_numbers"@, 25_000_000int, 875_000_000int),
        ("c"@, 325_000_000int, 625_000_000int),
        ("a"@, 75_000_000int, 375_000_000int),
        ("e"@, 225_000_000int, 125_000_000int),
        ("b"@, 525_000_000int, 625_000_000int),
        ("space"@, 675_000_000int, 875_000_000int),
        ("u"@, 675_000_000int, 125_000_000int),
        ("x"@, 225_000_000int, 625_000_000int),
        ("p"@, 975_000_000int, 125_000_000int),
        ("e"@, 275_000_000int, 125_000_000int),
        ("h"@, 575_000_000int, 375_000_000int),
        ("m"@, 725_000_000int, 625_000_000int),
        ("m"@, 775_000_000int, 625_000_000int),
        ("f"@, 425_000_000int, 375_000_000int),
        ("s"@, 225_000_000int, 375_000_000int),
        (":)"@, 225_000_000int, 875_000_000int),
        ("Return"@, 925_000_000int, 875_000_000int),
        ("v"@, 475_000_000int, 625_000_000int),
        ("r"@, 325_000_000int, 125_000_000int),
    ]
}

/// What a list of cells says: each cell's key name as text, and its centre.
pub open spec fn cells_view(cells: Seq<(String, i32, i32)>) -> Seq<(Seq<char>, int, int)> {
    Seq::new(cells.len(), |i: int| (cells[i].0@, cells[i].1 as int, cells[i].2 as int))
}

/// The cells of the full keyboard.
pub fn get_buttons() -> (cells: Vec<(String, i32, i32)>)
    ensures
        cells_view(cells@) == button_cells(),
{
    let mut cells: Vec<(String, i32, i32)> = Vec::new();
    cells.push((String::from_str("."), 775_000_000, 875_000_000));
    cells.push((String::from_str("GBA"), 125_000_000, 875_000_000));
    cells.push((String::from_str("g"), 525_000_000, 375_000_000));
    cells.push((String::from_str("o"), 825_000_000, 125_000_000));
    cells.push((String::from_str("r"), 375_000_000, 125_000_000));
    cells.push((String::from_str("l"), 925_000_000, 375_000_000));
    cells.push((String::from_str("d"), 325_000_000, 375_000_000));
    cells.push((String::from_str("k"), 825_000_000, 375_000_000));
    cells.push((String::from_str("q"), 75_000_000, 125_000_000));
    cells.push((String::from_str("Shift_L_base"), 25_000_000, 625_000_000));
    cells.push((String::from_str(":)"), 275_000_000, 875_000_000));
    cells.push((String::from_str("space"), 525_000_000, 875_000_000));
    cells.push((String::from_str("i"), 775_000_000, 125_000_000));
    cells.push((String::from_str("k"), 775_000_000, 375_000_000));
    cells.push((String::from_str("BackSpace"), 975_000_000, 625_000_000));
    cells.push((String::from_str("BackSpace"), 875_000_000, 625_000_000));
    cells.push((String::from_str("b"), 575_000_000, 625_000_000));
    cells.push((String::from_str("Return"), 825_000_000, 875_000_000));
    cells.push((String::from_str("space"), 475_000_000, 875_000_000));
    cells.push((String::from_str("space"), 375_000_000, 875_000_000));
    cells.push((String::from_str("t"), 425_000_000, 125_000_000));
    cells.push((String::from_str("w"), 175_000_000, 125_000_000));
    cells.push((String::from_str("v"), 425_000_000, 625_000_000));
    cells.push((String::from_str("j"), 725_000_000, 375_000_000));
    cells.push((String::from_str("i"), 725_000_000, 125_000_000));
    cells.push((String::from_str("y"), 575_000_000, 125_000_000));
    cells.push((String::from_str("j"), 675_000_000, 375_000_000));
    cells.push((String::from_str("f"), 375_000_000, 375_000_000));
    cells.push((String::from_str("n"), 625_000_000, 625_000_000));
    cells.push((String::from_str("space"), 575_000_000, 875_000_000));
    cells.push((String::from_str("show_numbers"), 75_000_000, 875_000_000));
    cells.push((String::from_str("z"), 125_000_000, 625_000_000));
    cells.push((String::from_str("w"), 125_000_000, 125_000_000));
    cells.push((String::from_str("Shift_L_base"), 75_000_000, 625_000_000));
    cells.push((String::from_str("."), 725_000_000, 875_000_000));
    cells.push((String::from_str("space"), 325_000_000, 875_000_000));
    cells.push((String::from_str("s"), 175_000_000, 375_000_000));
    cells.push((String::from_str("q"), 25_000_000, 125_000_000));
    cells.push((String::from_str("g"), 475_000_000, 375_000_000));
    cells.push((String::from_str("u"), 625_000_000, 125_000_000));
    cells.push((String::from_str("c"), 375_000_000, 625_000_000));
    cells.push((String::from_str("x"), 275_000_000, 625_000_000));
    cells.push((String::from_str("space"), 425_000_000, 875_000_000));
    cells.push((String::from_str("n"), 675_000_000, 625_000_000));
    cells.push((String::from_str("BackSpace"), 925_000_000, 625_000_000));
    cells.push((String::from_str("o"), 875_000_000, 125_000_000));
    cells.push((String::from_str("d"), 275_000_000, 375_000_000));
    cells.push((String::from_str("GBA"), 175_000_000, 875_000_000));
    cells.push((String::from_str("y"), 525_000_000, 125_000_000));
    cells.push((String::from_str("Return"), 875_000_000, 875_000_000));
    cells.push((String::from_str("h"), 625_000_000, 375_000_000));
    cells.push((String::from_str("a"), 125_000_000, 375_000_000));
    cells.push((String::from_str("p"), 925_000_000, 125_000_000));
    cells.push((String::from_str("l"), 875_000_000, 375_000_000));
    cells.push((String::from_str("t"), 475_000_000, 125_000_000));
    cells.push((String::from_str("space"), 625_000_000, 875_000_000));
    cells.push((String::from_str("BackSpace"), 825_000_000, 625_000_000));
    cells.push((String::from_str("Return"), 975_000_000, 875_000_000));
    cells.push((String::from_str("z"), 175_000_000, 625_000_000));
    cells.push((String::from_str("show_numbers"), 25_000_000, 875_000_000));
    cells.push((String::from_str("c"), 325_000_000, 625_000_000));
    cells.push((String::from_str("a"), 75_000_000, 375_000_000));
    cells.push((String::from_str("e"), 225_000_000, 125_000_000));
    cells.push((String::from_str("b"), 525_000_000, 625_000_000));
    cells.push((String::from_str("space"), 675_000_000, 875_000_000));
    cells.push((String::from_str("u"), 675_000_000, 125_000_000));
    cells.push((String::from_str("x"), 225_000_000, 625_000_000));
    cells.push((String::from_str("p"), 975_000_000, 125_000_000));
    cells.push((String::from_str("e"), 275_000_000, 125_000_000));
    cells.push((String::from_str("h"), 575_000_000, 375_000_000));
    cells.push((String::from_str("m"), 725_000_000, 625_000_000));
    cells.push((String::from_str("m"), 775_000_000, 625_000_000));
    cells.push((String::from_str("f"), 425_000_000, 375_000_000));
    cells.push((String::from_str("s"), 225_000_000, 375_000_000));
    cells.push((String::from_str(":)"), 225_000_000, 875_000_000));
    cells.push((String::from_str("Return"), 925_000_000, 875_000_000));
    cells.push((String::from_str("v"), 475_000_000, 625_000_000));
    cells.push((String::from_str("r"), 325_000_000, 125_000_000));
    assert(cells_view(cells@) =~= button_cells());
    cells
}

/// Number of cells that the key `name` covers.
pub open spec fn cell_count(cells: Seq<(Seq<char>, int, int)>, name: Seq<char>) -> nat
    decreases cells.len(),
{
    if cells.len() == 0 {
        0
    } else {
        cell_count(cells.drop_last(), name) + if cells.last().0 == name {
            1nat
        } else {
            0nat
        }
    }
}

/// Sum of the x coordinates of the cells that the key `name` covers.
pub open spec fn cell_sum_x(cells: Seq<(Seq<char>, int, int)>, name: Seq<char>) -> int
    decreases cells.len(),
{
    if cells.len() == 0 {
        0
    } else {
        cell_sum_x(cells.drop_last(), name) + if cells.last().0 == name {
            cells.last().1
        } else {
            0
        }
    }
}

/// Sum of the y coordinates of the cells that the key `name` covers.
pub open spec fn cell_sum_y(cells: Seq<(Seq<char>, int, int)>, name: Seq<char>) -> int
    decreases cells.len(),
{
    if cells.len() == 0 {
        0
    } else {
        cell_sum_y(cells.drop_last(), name) + if cells.last().0 == name {
            cells.last().2
        } else {
            0
        }
    }
}

/// The mean of `count` numbers that sum to `sum`, rounded towards zero.
pub open spec fn mean(sum: int, count: int) -> int {
    if sum >= 0 {
        sum / count
    } else {
        -((-sum) / count)
    }
}

/// The centre of a key: the mean of the centres of the cells that it covers.
pub open spec fn centroid(cells: Seq<(Seq<char>, int, int)>, name: Seq<char>) -> Point {
    Point {
        x: mean(cell_sum_x(cells, name), cell_count(cells, name) as int) as i32,
        y: mean(cell_sum_y(cells, name), cell_count(cells, name) as int) as i32,
    }
}

/// The layout that the cells make: a key for every name among them, at the
/// centroid of its cells.
pub open spec fn centroids(cells: Seq<(Seq<char>, int, int)>) -> Map<Seq<char>, Point> {
    Map::new(
        |name: Seq<char>| cell_count(cells, name) > 0,
        |name: Seq<char>| centroid(cells, name),
    )
}

/// Every cell's centre is on the grid.
pub open spec fn on_grid(cells: Seq<(Seq<char>, int, int)>) -> bool {
    forall|i: int|
        0 <= i < cells.len() ==> i32::MIN <= (#[trigger] cells[i]).1 <= i32::MAX && i32::MIN
            <= cells[i].2 <= i32::MAX
}

/// A key covers no more cells than there are, and the sums of its cells'
/// coordinates are those of as many grid coordinates.
pub proof fn lemma_cell_sums(cells: Seq<(Seq<char>, int, int)>, name: Seq<char>)
    requires
        on_grid(cells),
    ensures
        cell_count(cells, name) <= cells.len(),
        cell_count(cells, name) * i32::MIN <= cell_sum_x(cells, name) <= cell_count(cells, name)
            * i32::MAX,
        cell_count(cells, name) * i32::MIN <= cell_sum_y(cells, name) <= cell_count(cells, name)
            * i32::MAX,
    decreases cells.len(),
{
    if cells.len() > 0 {
        let front = cells.drop_last();
        assert forall|i: int| 0 <= i < front.len() implies i32::MIN <= (#[trigger] front[i]).1
            <= i32::MAX && i32::MIN <= front[i].2 <= i32::MAX by {
            assert(front[i] == cells[i]);
        }
        lemma_cell_sums(front, name);
        assert(i32::MIN <= cells[cells.len() - 1].1 <= i32::MAX);
    }
}

/// The mean of grid coordinates is a grid coordinate.
pub proof fn lemma_mean_on_grid(sum: int, count: int)
    requires
        0 < count,
        count * i32::MIN <= sum <= count * i32::MAX,
    ensures
        i32::MIN <= mean(sum, count) <= i32::MAX,
{
    if sum >= 0 {
        assert(sum / count <= i32::MAX) by (nonlinear_arith)
            requires
                0 < count,
                0 <= sum <= count * i32::MAX,
        ;
        assert(0 <= sum / count) by (nonlinear_arith)
            requires
                0 < count,
                0 <= sum,
        ;
    } else {
        let m = -sum;
        assert(m / count <= 0x8000_0000) by (nonlinear_arith)
            requires
                0 < count,
                0 <= m <= count * 0x8000_0000,
        ;
        assert(0 <= m / count) by (nonlinear_arith)
            requires
                0 < count,
                0 <= m,
        ;
    }
}

/// Sums of the centres of one key's cells, and how many they are.
struct Tally {
    x: i128,
    y: i128,
    cells: u64,
}

impl Tally {
    spec fn of(self, cells: Seq<(Seq<char>, int, int)>, name: Seq<char>) -> bool {
        &&& self.x == cell_sum_x(cells, name)
        &&& self.y == cell_sum_y(cells, name)
        &&& self.cells == cell_count(cells, name)
    }
}

fn mean_of(sum: i128, count: u64) -> (m: i32)
    requires
        0 < count,
        count * i32::MIN <= sum <= count * i32::MAX,
    ensures
        m == mean(sum as int, count as int),
{
    proof {
        lemma_mean_on_grid(sum as int, count as int);
    }
    if sum >= 0 {
        (sum / count as i128) as i32
    } else {
        (-((-sum) / count as i128)) as i32
    }
}

/// Averages the cells of each key: the layout has a key for every name among
/// the cells, at the mean of the centres of the cells of that name.
pub fn button_centers(cells: &Vec<(String, i32, i32)>) -> (centers: Layout)
    ensures
        centers@ == centroids(cells_view(cells@)),
{
    let ghost all = cells_view(cells@);
    assert(on_grid(all));
    let mut tallies: StringHashMap<Tally> = StringHashMap::new();
    let mut i: usize = 0;
    while i < cells.len()
        invariant
            i <= cells.len(),
            all == cells_view(cells@),
            on_grid(all),
            forall|name: Seq<char>| #[trigger]
                tallies@.contains_key(name) <==> cell_count(all.take(i as int), name) > 0,
            forall|name: Seq<char>| #[trigger]
                tallies@.contains_key(name) ==> tallies@[name].of(all.take(i as int), name),
        decreases cells.len() - i,
    {
        let name: &String = &cells[i].0;
        let x: i32 = cells[i].1;
        let y: i32 = cells[i].2;
        let ghost seen = all.take(i as int);
        let ghost more = all.take(i + 1);
        proof {
            assert(more.drop_last() =~= seen);
            assert(more.last() == all[i as int]);
            assert(on_grid(seen));
            lemma_cell_sums(seen, name@);
        }
        let tally: Tally = match tallies.get(name.as_str()) {
            Some(t) => Tally { x: t.x + x as i128, y: t.y + y as i128, cells: t.cells + 1 },
            None => Tally { x: x as i128, y: y as i128, cells: 1 },
        };
        tallies.insert(name.clone(), tally);
        i = i + 1;
    }
    let mut centers: Layout = Layout::new();
    let mut j: usize = 0;
    assert(all.take(cells.len() as int) =~= all);
    while j < cells.len()
        invariant
            j <= cells.len(),
            all == cells_view(cells@),
            on_grid(all),
            forall|name: Seq<char>| #[trigger]
                tallies@.contains_key(name) <==> cell_count(all, name) > 0,
            forall|name: Seq<char>| #[trigger]
                tallies@.contains_key(name) ==> tallies@[name].of(all, name),
            forall|name: Seq<char>| #[trigger]
                centers@.contains_key(name) <==> cell_count(all.take(j as int), name) > 0,
            forall|name: Seq<char>| #[trigger]
                centers@.contains_key(name) ==> centers@[name] == centroid(all, name),
        decreases cells.len() - j,
    {
        let name: &String = &cells[j].0;
        proof {
            assert(all.take(j + 1).drop_last() =~= all.take(j as int));
            assert(all.take(j + 1).last() == all[j as int]);
            lemma_cell_sums(all, name@);
            lemma_counted(all, j as int);
        }
        match tallies.get(name.as_str()) {
            Some(t) => {
                let center: Point = Point { x: mean_of(t.x, t.cells), y: mean_of(t.y, t.cells) };
                centers.insert(name.as_str(), center);
            },
            None => {
                assert(false);
            },
        }
        j = j + 1;
    }
    assert(centers@ =~= centroids(all));
    centers
}

/// A key that covers a cell covers one cell at least.
pub proof fn lemma_counted(cells: Seq<(Seq<char>, int, int)>, i: int)
    requires
        0 <= i < cells.len(),
    ensures
        cell_count(cells, cells[i].0) > 0,
    decreases cells.len(),
{
    if i < cells.len() - 1 {
        lemma_counted(cells.drop_last(), i);
    }
}

/// The layout of the full keyboard: every key at the mean of the centres of
/// its cells.
pub fn get_button_centers() -> (centers: Layout)
    ensures
        centers@ == centroids(button_cells()),
{
    let cells: Vec<(String, i32, i32)> = get_buttons();
    button_centers(&cells)
}

} // verus!
