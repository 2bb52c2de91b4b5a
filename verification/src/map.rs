use vstd::prelude::*;

verus! {

/// Whether a map cell can be walked and seen through.
#[derive(Clone, Copy, Debug, PartialEq, Eq, Structural)]
pub enum MapCellType {
    Empty,
    Wall,
}

/// One cell of the map grid: the color it is drawn with, whether it is
/// solid, and a reserved wall height in fixed-point units (kept at zero).
#[derive(Clone, Copy, Debug, PartialEq)]
pub struct MapCell {
    pub color: [u8; 4],
    pub solid: MapCellType,
    pub height: i64,
}

impl MapCell {
    pub fn new(color: [u8; 4], solid: MapCellType, height: i64) -> (c: MapCell)
        ensures
            c == (MapCell { color, solid, height }),
    {
        MapCell { color, solid, height }
    }

    /// The passable cell a fully transparent pixel turns into.
    pub fn empty() -> (c: MapCell)
        ensures
            c == (MapCell { color: [0u8, 0u8, 0u8, 0u8], solid: MapCellType::Empty, height: 0i64 }),
    {
        MapCell { color: [0, 0, 0, 0], solid: MapCellType::Empty, height: 0 }
    }
}

/// How a source-image pixel classifies: any pixel that is not fully opaque
/// (alpha below 255) is passable, everything else is a wall carrying the
/// pixel's color.
pub open spec fn cell_of_pixel(p: [u8; 4]) -> MapCell {
    MapCell {
        color: p,
        solid: if p[3] < 255 {
            MapCellType::Empty
        } else {
            MapCellType::Wall
        },
        height: 0i64,
    }
}

/// The grid that a whole pixel image turns into, row by row.
pub open spec fn grid_of_pixels(rows: Seq<Seq<[u8; 4]>>) -> Seq<Seq<MapCell>> {
    rows.map_values(|r: Seq<[u8; 4]>| r.map_values(|p: [u8; 4]| cell_of_pixel(p)))
}

/// The sequence-of-sequences contents of a grid held in vectors.
pub open spec fn grid_view(map: Seq<Vec<MapCell>>) -> Seq<Seq<MapCell>> {
    map.map_values(|r: Vec<MapCell>| r@)
}

/// The sequence-of-sequences contents of a pixel image held in vectors.
pub open spec fn pixels_view(rows: Seq<Vec<[u8; 4]>>) -> Seq<Seq<[u8; 4]>> {
    rows.map_values(|r: Vec<[u8; 4]>| r@)
}

/// Build the map grid from the pixel rows of the source image: one cell per
/// pixel, fully opaque pixels becoming walls of that color, all others
/// passable. This is the whole classification; reading the image file
/// belongs to the caller.
pub fn build_map(rows: &Vec<Vec<[u8; 4]>>) -> (map: Vec<Vec<MapCell>>)
    ensures
        grid_view(map@) == grid_of_pixels(pixels_view(rows@)),
        map@.len() == rows@.len(),
        forall|y: int| 0 <= y < map@.len() ==> (#[trigger] map@[y])@.len() == rows@[y]@.len(),
{
    let mut map: Vec<Vec<MapCell>> = Vec::new();
    let mut y: usize = 0;
    while y < rows.len()
        invariant
            y <= rows@.len(),
            map@.len() == y,
            grid_view(map@) =~= grid_of_pixels(pixels_view(rows@)).take(y as int),
            forall|yy: int| 0 <= yy < y ==> (#[trigger] map@[yy])@.len() == rows@[yy]@.len(),
        decreases rows@.len() - y,
    {
        let source = &rows[y];
        let mut row: Vec<MapCell> = Vec::new();
        let mut x: usize = 0;
        while x < source.len()
            invariant
                x <= source@.len(),
                row@.len() == x,
                row@ =~= source@.map_values(|p: [u8; 4]| cell_of_pixel(p)).take(x as int),
            decreases source@.len() - x,
        {
            let pixel = source[x];
            let solid = if pixel[3] < 255 {
                MapCellType::Empty
            } else {
                MapCellType::Wall
            };
            row.push(MapCell::new(pixel, solid, 0));
            proof {
                assert(row@ =~= source@.map_values(|p: [u8; 4]| cell_of_pixel(p)).take(
                    x as int + 1,
                ));
            }
            x = x + 1;
        }
        map.push(row);
        proof {
            assert(row@ =~= source@.map_values(|p: [u8; 4]| cell_of_pixel(p)));
            assert(grid_view(map@) =~= grid_of_pixels(pixels_view(rows@)).take(y as int + 1));
        }
        y = y + 1;
    }
    proof {
        assert(grid_view(map@) =~= grid_of_pixels(pixels_view(rows@)));
    }
    map
}

/// Loading the same image twice gives the same grid: the classification is a
/// function of the pixels alone, so two builds from equal pixel rows agree
/// cell for cell.
pub proof fn lemma_build_deterministic(a: Seq<Seq<[u8; 4]>>, b: Seq<Seq<[u8; 4]>>)
    requires
        a == b,
    ensures
        grid_of_pixels(a) == grid_of_pixels(b),
{
}

/// Whether a grid is small enough for the fixed-point geometry: at most
/// 4096 rows of at most 4096 cells.
pub open spec fn grid_bounded(map: Seq<Seq<MapCell>>) -> bool {
    &&& map.len() <= 4096
    &&& forall|y: int| 0 <= y < map.len() ==> (#[trigger] map[y]).len() <= 4096
}

} // verus!
