use vstd::multiset::Multiset;
use vstd::prelude::*;
use vstd::string::StrSliceExecFns;

use crate::json::{extract_level_fields, level_fields_of};
use crate::point::{all_in_field, in_field, Point};
use crate::snake::Direction;

verus! {

/// Why a level failed to load: the file could not be read, a numeric field
/// exceeds the supported range, or the document breaks the level schema.
#[derive(Clone, Copy, Debug, PartialEq, Eq, Structural)]
pub enum LoadLevelError {
    IoError,
    TooLargeValue,
    InvalidFormat,
}

/// A validated level: an optional win score (absent means endless play), an
/// optional fixed start (absent means a random one), the obstacle cells, the
/// logical tick rate, and the field dimensions.
#[derive(Debug, PartialEq)]
pub struct Level {
    pub target_points: Option<i32>,
    pub start_position: Option<Point>,
    pub start_direction: Option<Direction>,
    pub obstacles: Vec<Point>,
    pub updates_per_second: i32,
    pub height: i32,
    pub width: i32,
}

/// What a parsed level map yields: the start cell, the start direction read
/// off the adjacent direction marker, the obstacles, and the grid dimensions.
#[derive(Debug, PartialEq)]
pub struct MapData {
    pub start_position: Point,
    pub direction: Direction,
    pub obstacles: Vec<Point>,
    pub height: i32,
    pub width: i32,
}

/// What one map cell stands for. Each recognized marker is a one-character
/// string; any other cell content is invalid.
#[derive(Clone, Copy, Debug, PartialEq, Eq, Structural)]
pub enum CellKind {
    Obstacle,
    Start,
    DirectionMarker,
    Empty,
    Invalid,
}

/// Classifies one cell's text: `"o"` an obstacle, `"s"` the start, `"d"` the
/// direction marker, `"-"` an empty cell.
pub open spec fn spec_cell_kind(cell: Seq<char>) -> CellKind {
    if cell.len() != 1 {
        CellKind::Invalid
    } else if cell[0] == 'o' {
        CellKind::Obstacle
    } else if cell[0] == 's' {
        CellKind::Start
    } else if cell[0] == 'd' {
        CellKind::DirectionMarker
    } else if cell[0] == '-' {
        CellKind::Empty
    } else {
        CellKind::Invalid
    }
}

/// Exec counterpart of `spec_cell_kind`.
fn cell_kind(cell: &String) -> (k: CellKind)
    ensures
        k == spec_cell_kind(cell@),
{
    let s = cell.as_str();
    if s.unicode_len() != 1 {
        CellKind::Invalid
    } else {
        let c = s.get_char(0);
        if c == 'o' {
            CellKind::Obstacle
        } else if c == 's' {
            CellKind::Start
        } else if c == 'd' {
            CellKind::DirectionMarker
        } else if c == '-' {
            CellKind::Empty
        } else {
            CellKind::Invalid
        }
    }
}

/// The mathematical model of a raw map: rows of cells, each cell the
/// character sequence of its string.
pub open spec fn grid_of(values: Vec<Vec<String>>) -> Seq<Seq<Seq<char>>> {
    values.deep_view()
}

/// `p` names a cell of the grid.
pub open spec fn on_grid(grid: Seq<Seq<Seq<char>>>, p: Point) -> bool {
    0 <= p.y < grid.len() && 0 <= p.x < grid[p.y as int].len()
}

/// The cell of the grid that `p` names.
pub open spec fn cell_at(grid: Seq<Seq<Seq<char>>>, p: Point) -> Seq<char> {
    grid[p.y as int][p.x as int]
}

/// The grid holds a cell of the given kind at `p`.
pub open spec fn at_kind(grid: Seq<Seq<Seq<char>>>, p: Point, kind: CellKind) -> bool {
    on_grid(grid, p) && spec_cell_kind(cell_at(grid, p)) == kind
}

/// Every row has the length of the first one.
pub open spec fn grid_rectangular(grid: Seq<Seq<Seq<char>>>) -> bool {
    forall|y: int| 0 <= y < grid.len() ==> #[trigger] grid[y].len() == grid[0].len()
}

/// Both dimensions fit the platform's 32-bit signed integer range.
pub open spec fn dims_fit(grid: Seq<Seq<Seq<char>>>) -> bool {
    grid.len() <= 0x7fffffff && grid[0].len() <= 0x7fffffff
}

/// Every cell holds a recognized marker.
pub open spec fn markers_valid(grid: Seq<Seq<Seq<char>>>) -> bool {
    forall|p: Point| on_grid(grid, p) ==> spec_cell_kind(#[trigger] cell_at(grid, p))
        != CellKind::Invalid
}

/// Exactly one cell of the grid holds a marker of the given kind.
pub open spec fn unique_marker(grid: Seq<Seq<Seq<char>>>, kind: CellKind) -> bool {
    exists|p: Point|
        #[trigger] at_kind(grid, p, kind) && forall|q: Point|
            #[trigger] at_kind(grid, q, kind) ==> q == p
}

/// The cell holding the unique marker of the given kind.
pub open spec fn marker_cell(grid: Seq<Seq<Seq<char>>>, kind: CellKind) -> Point {
    choose|p: Point| at_kind(grid, p, kind)
}

/// The direction that one orthogonal grid step from `s` to `d` stands for
/// (`y` grows downwards); None when `d` is not exactly one step from `s`.
pub open spec fn direction_between(s: Point, d: Point) -> Option<Direction> {
    let dx = d.x - s.x;
    let dy = d.y - s.y;
    if dx == 0 && dy == 1 {
        Some(Direction::Down)
    } else if dx == 0 && dy == -1 {
        Some(Direction::Up)
    } else if dx == 1 && dy == 0 {
        Some(Direction::Right)
    } else if dx == -1 && dy == 0 {
        Some(Direction::Left)
    } else {
        None
    }
}

/// The direction marker sits exactly one orthogonal step from the start.
pub open spec fn markers_adjacent(grid: Seq<Seq<Seq<char>>>) -> bool {
    direction_between(
        marker_cell(grid, CellKind::Start),
        marker_cell(grid, CellKind::DirectionMarker),
    ) is Some
}

/// The whole level-map schema: a non-empty rectangular grid whose dimensions
/// fit, valid markers everywhere, exactly one start and one direction marker,
/// and the two adjacent.
pub open spec fn grid_ok(grid: Seq<Seq<Seq<char>>>) -> bool {
    &&& grid.len() >= 1
    &&& grid_rectangular(grid)
    &&& dims_fit(grid)
    &&& markers_valid(grid)
    &&& unique_marker(grid, CellKind::Start)
    &&& unique_marker(grid, CellKind::DirectionMarker)
    &&& markers_adjacent(grid)
}

/// The error a raw map produces, or None when it obeys the schema: a ragged
/// or empty grid and every marker violation are format errors, while
/// oversized dimensions exceed the supported value range.
pub open spec fn grid_error(grid: Seq<Seq<Seq<char>>>) -> Option<LoadLevelError> {
    if !(grid.len() >= 1 && grid_rectangular(grid)) {
        Some(LoadLevelError::InvalidFormat)
    } else if !dims_fit(grid) {
        Some(LoadLevelError::TooLargeValue)
    } else if !(markers_valid(grid) && unique_marker(grid, CellKind::Start) && unique_marker(
        grid,
        CellKind::DirectionMarker,
    ) && markers_adjacent(grid)) {
        Some(LoadLevelError::InvalidFormat)
    } else {
        None
    }
}

/// `p` comes strictly before `q` in row-major order.
pub open spec fn point_before(p: Point, q: Point) -> bool {
    p.y < q.y || (p.y == q.y && p.x < q.x)
}

/// How a parsed map reflects its grid: the dimensions are the grid's, the
/// start and direction come from the unique markers, and the obstacle list
/// holds exactly the obstacle cells, in row-major order.
pub open spec fn map_matches_grid(m: MapData, grid: Seq<Seq<Seq<char>>>) -> bool {
    &&& m.height as int == grid.len()
    &&& m.width as int == grid[0].len()
    &&& m.start_position == marker_cell(grid, CellKind::Start)
    &&& Some(m.direction) == direction_between(
        marker_cell(grid, CellKind::Start),
        marker_cell(grid, CellKind::DirectionMarker),
    )
    &&& forall|p: Point| m.obstacles@.contains(p) <==> at_kind(grid, p, CellKind::Obstacle)
    &&& forall|i: int, j: int|
        0 <= i < j < m.obstacles@.len() ==> point_before(m.obstacles@[i], m.obstacles@[j])
}

/// `p` was already visited by a row-major scan that stands at column `x` of
/// row `y`.
pub open spec fn scanned_before(p: Point, x: int, y: int) -> bool {
    p.y < y || (p.y == y && p.x < x)
}

/// The state of a row-major marker scan standing at `(x, y)`: `v` holds
/// exactly the already-visited cells of the given kind, in visiting order.
pub open spec fn scan_collects(
    grid: Seq<Seq<Seq<char>>>,
    v: Seq<Point>,
    kind: CellKind,
    x: int,
    y: int,
) -> bool {
    &&& forall|i: int|
        0 <= i < v.len() ==> at_kind(grid, #[trigger] v[i], kind) && scanned_before(v[i], x, y)
    &&& forall|p: Point| at_kind(grid, p, kind) && scanned_before(p, x, y) ==> v.contains(p)
    &&& forall|i: int, j: int|
        0 <= i < j < v.len() ==> point_before(#[trigger] v[i], #[trigger] v[j])
}

/// Visiting a cell of the scanned kind and appending it keeps the scan state.
proof fn lemma_scan_push(
    grid: Seq<Seq<Seq<char>>>,
    v0: Seq<Point>,
    pt: Point,
    kind: CellKind,
    x: int,
    y: int,
)
    requires
        scan_collects(grid, v0, kind, x, y),
        pt.x as int == x,
        pt.y as int == y,
        at_kind(grid, pt, kind),
    ensures
        scan_collects(grid, v0.push(pt), kind, x + 1, y),
{
    let v1 = v0.push(pt);
    assert forall|i: int|
        0 <= i < v1.len() implies at_kind(grid, #[trigger] v1[i], kind) && scanned_before(
        v1[i],
        x + 1,
        y,
    ) by {
        if i < v0.len() {
            assert(v1[i] == v0[i]);
        } else {
            assert(v1[i] == pt);
        }
    }
    assert forall|p: Point|
        at_kind(grid, p, kind) && scanned_before(p, x + 1, y) implies v1.contains(p) by {
        if p.y as int == y && p.x as int == x {
            assert(p == pt);
            assert(v1[v1.len() - 1] == p);
        } else {
            assert(scanned_before(p, x, y));
            assert(v0.contains(p));
            let j = choose|j: int| 0 <= j < v0.len() && v0[j] == p;
            assert(v1[j] == p);
        }
    }
    assert forall|i: int, j: int|
        0 <= i < j < v1.len() implies point_before(#[trigger] v1[i], #[trigger] v1[j]) by {
        if j < v0.len() {
            assert(v1[i] == v0[i] && v1[j] == v0[j]);
        } else {
            assert(v1[i] == v0[i] && v1[j] == pt);
            assert(scanned_before(v0[i], x, y));
        }
    }
}

/// Visiting a cell of another kind leaves the scan state unchanged.
proof fn lemma_scan_skip(
    grid: Seq<Seq<Seq<char>>>,
    v: Seq<Point>,
    pt: Point,
    kind: CellKind,
    x: int,
    y: int,
)
    requires
        scan_collects(grid, v, kind, x, y),
        pt.x as int == x,
        pt.y as int == y,
        !at_kind(grid, pt, kind),
    ensures
        scan_collects(grid, v, kind, x + 1, y),
{
    assert forall|p: Point|
        at_kind(grid, p, kind) && scanned_before(p, x + 1, y) implies v.contains(p) by {
        if p.y as int == y && p.x as int == x {
            assert(p == pt);
        } else {
            assert(scanned_before(p, x, y));
        }
    }
}

/// Finishing one row of a rectangular grid moves the scan to the next row.
proof fn lemma_scan_row_end(grid: Seq<Seq<Seq<char>>>, v: Seq<Point>, kind: CellKind, y: int)
    requires
        scan_collects(grid, v, kind, grid[0].len() as int, y),
        grid_rectangular(grid),
    ensures
        scan_collects(grid, v, kind, 0, y + 1),
{
    assert forall|p: Point|
        at_kind(grid, p, kind) && scanned_before(p, 0, y + 1) implies v.contains(p) by {
        if p.y as int == y {
            assert(grid[p.y as int].len() == grid[0].len());
            assert(scanned_before(p, grid[0].len() as int, y));
        }
    }
}

/// A completed scan lists exactly the cells of its kind, in row-major order.
proof fn lemma_scan_complete(grid: Seq<Seq<Seq<char>>>, v: Seq<Point>, kind: CellKind)
    requires
        scan_collects(grid, v, kind, 0, grid.len() as int),
    ensures
        forall|p: Point| v.contains(p) <==> at_kind(grid, p, kind),
{
    assert forall|p: Point| v.contains(p) implies at_kind(grid, p, kind) by {
        let i = choose|i: int| 0 <= i < v.len() && v[i] == p;
        assert(at_kind(grid, v[i], kind));
    }
    assert forall|p: Point| at_kind(grid, p, kind) implies v.contains(p) by {
        assert(scanned_before(p, 0, grid.len() as int));
    }
}

/// What the number of collected markers of a kind says about the grid: one
/// marker makes it the unique one; any other count breaks uniqueness.
proof fn lemma_collected_unique(grid: Seq<Seq<Seq<char>>>, v: Seq<Point>, kind: CellKind)
    requires
        forall|p: Point| v.contains(p) <==> at_kind(grid, p, kind),
        forall|i: int, j: int|
            0 <= i < j < v.len() ==> point_before(#[trigger] v[i], #[trigger] v[j]),
    ensures
        v.len() == 1 ==> unique_marker(grid, kind) && marker_cell(grid, kind) == v[0],
        v.len() != 1 ==> !unique_marker(grid, kind),
{
    if v.len() == 1 {
        let p0 = v[0];
        assert(v.contains(p0));
        assert(at_kind(grid, p0, kind));
        assert forall|q: Point| #[trigger] at_kind(grid, q, kind) implies q == p0 by {
            assert(v.contains(q));
            let j = choose|j: int| 0 <= j < v.len() && v[j] == q;
            assert(j == 0);
        }
        assert(unique_marker(grid, kind));
        let c = marker_cell(grid, kind);
        assert(at_kind(grid, c, kind));
    } else if v.len() == 0 {
        assert(!unique_marker(grid, kind)) by {
            if unique_marker(grid, kind) {
                let p = choose|p: Point|
                    #[trigger] at_kind(grid, p, kind) && forall|q: Point|
                        #[trigger] at_kind(grid, q, kind) ==> q == p;
                assert(at_kind(grid, p, kind));
                assert(v.contains(p));
            }
        }
    } else {
        assert(point_before(v[0], v[1]));
        assert(v.contains(v[0]));
        assert(v.contains(v[1]));
        assert(at_kind(grid, v[0], kind));
        assert(at_kind(grid, v[1], kind));
        assert(!unique_marker(grid, kind)) by {
            if unique_marker(grid, kind) {
                let p = choose|p: Point|
                    #[trigger] at_kind(grid, p, kind) && forall|q: Point|
                        #[trigger] at_kind(grid, q, kind) ==> q == p;
                assert(v[0] == p && v[1] == p);
            }
        }
    }
}

/// Parses and validates a raw map: dimensions, marker validity, uniqueness of
/// the start and direction markers, and their adjacency; collects the
/// obstacles in row-major order.
pub fn parse_map(values: &Vec<Vec<String>>) -> (r: Result<MapData, LoadLevelError>)
    ensures
        ({
            let grid = grid_of(*values);
            match r {
                Ok(m) => grid_error(grid) is None && map_matches_grid(m, grid),
                Err(e) => grid_error(grid) == Some(e),
            }
        }),
{
    let ghost grid = grid_of(*values);
    let (width, height) = match get_dimensions(values) {
        Ok(d) => d,
        Err(e) => {
            return Err(e);
        },
    };

    let mut obstacles: Vec<Point> = Vec::new();
    let mut start_positions: Vec<Point> = Vec::new();
    let mut directions: Vec<Point> = Vec::new();

    let height_usize = values.len();
    let mut y: usize = 0;
    while y < height_usize
        invariant
            grid == grid_of(*values),
            grid.len() >= 1,
            grid_rectangular(grid),
            dims_fit(grid),
            height as int == grid.len(),
            width as int == grid[0].len(),
            height_usize == grid.len(),
            0 <= y <= height_usize,
            scan_collects(grid, obstacles@, CellKind::Obstacle, 0, y as int),
            scan_collects(grid, start_positions@, CellKind::Start, 0, y as int),
            scan_collects(grid, directions@, CellKind::DirectionMarker, 0, y as int),
            forall|p: Point|
                on_grid(grid, p) && scanned_before(p, 0, y as int) ==> spec_cell_kind(
                    #[trigger] cell_at(grid, p),
                ) != CellKind::Invalid,
        decreases height_usize - y,
    {
        let row_len = values[y].len();
        assert(row_len == grid[y as int].len());
        assert(row_len == width as int);
        let mut x: usize = 0;
        while x < row_len
            invariant
                grid == grid_of(*values),
                grid.len() >= 1,
                grid_rectangular(grid),
                dims_fit(grid),
                height as int == grid.len(),
                width as int == grid[0].len(),
                height_usize == grid.len(),
                0 <= y < height_usize,
                row_len == grid[y as int].len(),
                row_len == width as int,
                0 <= x <= row_len,
                scan_collects(grid, obstacles@, CellKind::Obstacle, x as int, y as int),
                scan_collects(grid, start_positions@, CellKind::Start, x as int, y as int),
                scan_collects(grid, directions@, CellKind::DirectionMarker, x as int, y as int),
                forall|p: Point|
                    on_grid(grid, p) && scanned_before(p, x as int, y as int) ==> spec_cell_kind(
                        #[trigger] cell_at(grid, p),
                    ) != CellKind::Invalid,
            decreases row_len - x,
        {
            let k = cell_kind(&values[y][x]);
            let pt = Point { x: x as i32, y: y as i32 };
            proof {
                assert(cell_at(grid, pt) == values@[y as int]@[x as int]@);
                assert(on_grid(grid, pt));
                assert(k == spec_cell_kind(cell_at(grid, pt)));
            }
            let ghost obs0 = obstacles@;
            let ghost starts0 = start_positions@;
            let ghost dirs0 = directions@;
            match k {
                CellKind::Obstacle => {
                    obstacles.push(pt);
                    proof {
                        lemma_scan_push(grid, obs0, pt, CellKind::Obstacle, x as int, y as int);
                        lemma_scan_skip(grid, starts0, pt, CellKind::Start, x as int, y as int);
                        lemma_scan_skip(
                            grid,
                            dirs0,
                            pt,
                            CellKind::DirectionMarker,
                            x as int,
                            y as int,
                        );
                    }
                },
                CellKind::Start => {
                    start_positions.push(pt);
                    proof {
                        lemma_scan_skip(grid, obs0, pt, CellKind::Obstacle, x as int, y as int);
                        lemma_scan_push(grid, starts0, pt, CellKind::Start, x as int, y as int);
                        lemma_scan_skip(
                            grid,
                            dirs0,
                            pt,
                            CellKind::DirectionMarker,
                            x as int,
                            y as int,
                        );
                    }
                },
                CellKind::DirectionMarker => {
                    directions.push(pt);
                    proof {
                        lemma_scan_skip(grid, obs0, pt, CellKind::Obstacle, x as int, y as int);
                        lemma_scan_skip(grid, starts0, pt, CellKind::Start, x as int, y as int);
                        lemma_scan_push(
                            grid,
                            dirs0,
                            pt,
                            CellKind::DirectionMarker,
                            x as int,
                            y as int,
                        );
                    }
                },
                CellKind::Empty => {
                    proof {
                        lemma_scan_skip(grid, obs0, pt, CellKind::Obstacle, x as int, y as int);
                        lemma_scan_skip(grid, starts0, pt, CellKind::Start, x as int, y as int);
                        lemma_scan_skip(
                            grid,
                            dirs0,
                            pt,
                            CellKind::DirectionMarker,
                            x as int,
                            y as int,
                        );
                    }
                },
                CellKind::Invalid => {
                    proof {
                        assert(!markers_valid(grid));
                    }
                    return Err(LoadLevelError::InvalidFormat);
                },
            }
            x = x + 1;
        }
        proof {
            lemma_scan_row_end(grid, obstacles@, CellKind::Obstacle, y as int);
            lemma_scan_row_end(grid, start_positions@, CellKind::Start, y as int);
            lemma_scan_row_end(grid, directions@, CellKind::DirectionMarker, y as int);
            assert forall|p: Point|
                on_grid(grid, p) && scanned_before(p, 0, y as int + 1) implies spec_cell_kind(
                #[trigger] cell_at(grid, p),
            ) != CellKind::Invalid by {
                if p.y as int == y as int {
                    assert(grid[p.y as int].len() == grid[0].len());
                    assert(scanned_before(p, width as int, y as int));
                }
            }
        }
        y = y + 1;
    }
    proof {
        lemma_scan_complete(grid, obstacles@, CellKind::Obstacle);
        lemma_scan_complete(grid, start_positions@, CellKind::Start);
        lemma_scan_complete(grid, directions@, CellKind::DirectionMarker);
        lemma_collected_unique(grid, start_positions@, CellKind::Start);
        lemma_collected_unique(grid, directions@, CellKind::DirectionMarker);
        assert forall|p: Point| on_grid(grid, p) implies spec_cell_kind(
            #[trigger] cell_at(grid, p),
        ) != CellKind::Invalid by {
            assert(scanned_before(p, 0, grid.len() as int));
        }
        assert(markers_valid(grid));
    }

    let start_position = match extract_single_occurrence_element(start_positions.as_slice()) {
        Ok(p) => p,
        Err(e) => {
            return Err(e);
        },
    };
    let direction_marker = match extract_single_occurrence_element(directions.as_slice()) {
        Ok(p) => p,
        Err(e) => {
            return Err(e);
        },
    };
    proof {
        assert(start_positions@.contains(start_position));
        assert(directions@.contains(direction_marker));
    }
    let direction = match convert_direction(start_position, direction_marker) {
        Ok(d) => d,
        Err(e) => {
            return Err(e);
        },
    };

    Ok(MapData { start_position, direction, obstacles, height, width })
}

/// The grid's dimensions as `(width, height)`: defined only for a non-empty
/// rectangular grid whose dimensions fit the 32-bit range.
pub fn get_dimensions(values: &Vec<Vec<String>>) -> (r: Result<(i32, i32), LoadLevelError>)
    ensures
        ({
            let grid = grid_of(*values);
            match r {
                Ok(dims) => grid.len() >= 1 && grid_rectangular(grid) && dims_fit(grid)
                    && dims.0 as int == grid[0].len() && dims.1 as int == grid.len(),
                Err(LoadLevelError::InvalidFormat) => !(grid.len() >= 1 && grid_rectangular(
                    grid,
                )),
                Err(LoadLevelError::TooLargeValue) => grid.len() >= 1 && grid_rectangular(grid)
                    && !dims_fit(grid),
                Err(LoadLevelError::IoError) => false,
            }
        }),
{
    let ghost grid = grid_of(*values);
    let height = values.len();
    if height == 0 {
        return Err(LoadLevelError::InvalidFormat);
    }
    let width = values[0].len();
    assert(grid[0].len() == width as int);

    let mut i: usize = 1;
    while i < height
        invariant
            grid == grid_of(*values),
            height == grid.len(),
            width as int == grid[0].len(),
            1 <= i <= height,
            forall|y: int| 0 <= y < i ==> #[trigger] grid[y].len() == grid[0].len(),
        decreases height - i,
    {
        if values[i].len() != width {
            assert(grid[i as int].len() != grid[0].len());
            return Err(LoadLevelError::InvalidFormat);
        }
        assert(grid[i as int].len() == grid[0].len());
        i = i + 1;
    }
    assert(grid_rectangular(grid));

    if width > 0x7fffffff {
        return Err(LoadLevelError::TooLargeValue);
    }
    if height > 0x7fffffff {
        return Err(LoadLevelError::TooLargeValue);
    }
    Ok((width as i32, height as i32))
}

/// The single element of a one-element marker list; any other count breaks
/// the one-start-one-direction rule.
pub fn extract_single_occurrence_element(element: &[Point]) -> (r: Result<Point, LoadLevelError>)
    ensures
        match r {
            Ok(p) => element@.len() == 1 && p == element@[0],
            Err(e) => e == LoadLevelError::InvalidFormat && element@.len() != 1,
        },
{
    if element.len() != 1 {
        return Err(LoadLevelError::InvalidFormat);
    }
    Ok(element[0])
}

/// The direction one orthogonal grid step from the start to the direction
/// marker stands for; any other relative placement breaks the adjacency rule.
pub fn convert_direction(start_position: Point, direction_marker: Point) -> (r: Result<
    Direction,
    LoadLevelError,
>)
    requires
        0 <= start_position.x,
        0 <= start_position.y,
        0 <= direction_marker.x,
        0 <= direction_marker.y,
    ensures
        r == match direction_between(start_position, direction_marker) {
            Some(d) => Ok::<Direction, LoadLevelError>(d),
            None => Err::<Direction, LoadLevelError>(LoadLevelError::InvalidFormat),
        },
{
    let dx = direction_marker.x - start_position.x;
    let dy = direction_marker.y - start_position.y;
    if dx == 0 && dy == 1 {
        Ok(Direction::Down)
    } else if dx == 0 && dy == -1 {
        Ok(Direction::Up)
    } else if dx == 1 && dy == 0 {
        Ok(Direction::Right)
    } else if dx == -1 && dy == 0 {
        Ok(Direction::Left)
    } else {
        Err(LoadLevelError::InvalidFormat)
    }
}

/// Narrows a 64-bit numeric level field to the supported 32-bit signed
/// range; a value outside it exceeds the maximum.
pub fn property_from_i64(n: i64) -> (r: Result<i32, LoadLevelError>)
    ensures
        r == (if -0x80000000 <= n <= 0x7fffffff {
            Ok::<i32, LoadLevelError>(n as i32)
        } else {
            Err::<i32, LoadLevelError>(LoadLevelError::TooLargeValue)
        }),
{
    if -0x80000000 <= n && n <= 0x7fffffff {
        Ok(n as i32)
    } else {
        Err(LoadLevelError::TooLargeValue)
    }
}

/// The error a present numeric member produces, or None when it is an
/// integer in the supported 32-bit range: a non-integer member breaks the
/// format, an out-of-range integer exceeds the maximum.
pub open spec fn int_field_error(v: Option<i64>) -> Option<LoadLevelError> {
    match v {
        None => Some(LoadLevelError::InvalidFormat),
        Some(n) => if -0x80000000 <= n <= 0x7fffffff {
            None
        } else {
            Some(LoadLevelError::TooLargeValue)
        },
    }
}

/// The error a level document produces, or None when it obeys the schema:
/// text that is not JSON breaks the format; `target_points` may be absent
/// but must otherwise be an in-range integer; `updates_per_second` must be
/// present and an in-range integer; the map must be rows of cell strings
/// obeying the grid schema.
pub open spec fn level_fields_error(
    fields: Option<(Option<Option<i64>>, Option<Option<i64>>, Option<Seq<Seq<Seq<char>>>>)>,
) -> Option<LoadLevelError> {
    match fields {
        None => Some(LoadLevelError::InvalidFormat),
        Some(f) => {
            let target_points_error = match f.0 {
                None => None,
                Some(tp) => int_field_error(tp),
            };
            if target_points_error is Some {
                target_points_error
            } else {
                let updates_error = match f.1 {
                    None => Some(LoadLevelError::InvalidFormat),
                    Some(u) => int_field_error(u),
                };
                if updates_error is Some {
                    updates_error
                } else {
                    match f.2 {
                        None => Some(LoadLevelError::InvalidFormat),
                        Some(grid) => grid_error(grid),
                    }
                }
            }
        },
    }
}

/// The win score a loaded level carries: absent means endless play.
pub open spec fn loaded_target_points(field: Option<Option<i64>>) -> Option<i32> {
    match field {
        None => None,
        Some(tp) => match tp {
            Some(n) => Some(n as i32),
            None => None,
        },
    }
}

/// How a loaded level reflects its map grid: the dimensions are the grid's,
/// the start and direction come from the unique markers, and the obstacle
/// list holds exactly the obstacle cells, in row-major order.
pub open spec fn level_matches_grid(level: Level, grid: Seq<Seq<Seq<char>>>) -> bool {
    &&& level.height as int == grid.len()
    &&& level.width as int == grid[0].len()
    &&& level.start_position == Some(marker_cell(grid, CellKind::Start))
    &&& level.start_direction == direction_between(
        marker_cell(grid, CellKind::Start),
        marker_cell(grid, CellKind::DirectionMarker),
    )
    &&& forall|p: Point| level.obstacles@.contains(p) <==> at_kind(grid, p, CellKind::Obstacle)
    &&& forall|i: int, j: int|
        0 <= i < j < level.obstacles@.len() ==> point_before(
            #[trigger] level.obstacles@[i],
            #[trigger] level.obstacles@[j],
        )
}

/// How a loaded level reflects the document's three members.
pub open spec fn level_matches_fields(
    level: Level,
    f: (Option<Option<i64>>, Option<Option<i64>>, Option<Seq<Seq<Seq<char>>>>),
) -> bool {
    &&& level.target_points == loaded_target_points(f.0)
    &&& match f.1 {
        Some(Some(n)) => level.updates_per_second as int == n,
        _ => false,
    }
    &&& match f.2 {
        Some(grid) => level_matches_grid(level, grid),
        None => false,
    }
}

/// A valid map yields a well-formed level: positive dimensions, the start on
/// the field, obstacles on the field, and the start cell free of obstacles.
proof fn lemma_map_level_wf(m: MapData, grid: Seq<Seq<Seq<char>>>)
    requires
        grid_error(grid) is None,
        map_matches_grid(m, grid),
    ensures
        1 <= m.width && 1 <= m.height,
        in_field(m.start_position, m.width as int, m.height as int),
        all_in_field(m.obstacles@, m.width as int, m.height as int),
        !m.obstacles@.contains(m.start_position),
{
    let w = choose|p: Point|
        #[trigger] at_kind(grid, p, CellKind::Start) && forall|q: Point|
            #[trigger] at_kind(grid, q, CellKind::Start) ==> q == p;
    assert(at_kind(grid, w, CellKind::Start));
    let s = marker_cell(grid, CellKind::Start);
    assert(at_kind(grid, s, CellKind::Start));
    assert(s == m.start_position);
    assert(on_grid(grid, s));
    assert(grid[s.y as int].len() == grid[0].len());
    assert forall|i: int|
        0 <= i < m.obstacles@.len() implies in_field(
        #[trigger] m.obstacles@[i],
        m.width as int,
        m.height as int,
    ) by {
        assert(m.obstacles@.contains(m.obstacles@[i]));
        assert(at_kind(grid, m.obstacles@[i], CellKind::Obstacle));
        assert(grid[m.obstacles@[i].y as int].len() == grid[0].len());
    }
    assert(!m.obstacles@.contains(m.start_position)) by {
        if m.obstacles@.contains(m.start_position) {
            assert(at_kind(grid, m.start_position, CellKind::Obstacle));
        }
    }
}

impl Level {
    /// Parses the JSON text of a level file: the numeric members
    /// `target_points` (optional: a level without it is played endlessly)
    /// and `updates_per_second` (required) and the two-dimensional `map`.
    /// The extraction of the three members is the named parse of the text
    /// (`level_fields_of`); the loader succeeds exactly when that parse
    /// yields members obeying the schema, returns the level those members
    /// fix, and otherwise returns exactly the first violated rule's error.
    /// A loaded level is also well formed, and text never yields an I/O
    /// error.
    pub fn load_from_str(contents: &str) -> (r: Result<Level, LoadLevelError>)
        ensures
            ({
                let fields = level_fields_of(contents@);
                match r {
                    Ok(level) => level_fields_error(fields) is None && (fields matches Some(f)
                        && level_matches_fields(level, f)) && level.wf(),
                    Err(e) => level_fields_error(fields) == Some(e),
                }
            }),
    {
        let fields = match extract_level_fields(contents) {
            Some(f) => f,
            None => {
                return Err(LoadLevelError::InvalidFormat);
            },
        };
        let ghost fields0 = fields;
        let target_points = match fields.target_points {
            Some(tp) => match tp {
                Some(n) => match property_from_i64(n) {
                    Ok(v) => Some(v),
                    Err(e) => {
                        return Err(e);
                    },
                },
                None => {
                    return Err(LoadLevelError::InvalidFormat);
                },
            },
            None => None,
        };
        let updates_per_second = match fields.updates_per_second {
            Some(u) => match u {
                Some(n) => match property_from_i64(n) {
                    Ok(v) => v,
                    Err(e) => {
                        return Err(e);
                    },
                },
                None => {
                    return Err(LoadLevelError::InvalidFormat);
                },
            },
            None => {
                return Err(LoadLevelError::InvalidFormat);
            },
        };
        let values = match fields.map {
            Some(v) => v,
            None => {
                return Err(LoadLevelError::InvalidFormat);
            },
        };
        let map = match parse_map(&values) {
            Ok(m) => m,
            Err(e) => {
                return Err(e);
            },
        };
        proof {
            lemma_map_level_wf(map, grid_of(values));
        }
        let level = Level {
            target_points,
            start_position: Some(map.start_position),
            start_direction: Some(map.direction),
            obstacles: map.obstacles,
            updates_per_second,
            height: map.height,
            width: map.width,
        };
        proof {
            assert(in_field(level.start_position.unwrap(), level.width as int, level.height as int)
                && !level.obstacles@.contains(level.start_position.unwrap()));
            assert(fields0.map matches Some(m) ==> m.deep_view() == grid_of(values));
        }
        Ok(level)
    }

    /// A level is well formed when its field is positive, a fixed start lies
    /// on the field, every obstacle lies on the field, and at least one cell
    /// stays free of obstacles.
    pub open spec fn wf(self) -> bool {
        &&& 1 <= self.width && 1 <= self.height
        &&& (self.start_position matches Some(p) ==> in_field(
            p,
            self.width as int,
            self.height as int,
        ))
        &&& all_in_field(self.obstacles@, self.width as int, self.height as int)
        &&& exists|p: Point|
            in_field(p, self.width as int, self.height as int) && !self.obstacles@.contains(p)
    }

    /// The built-in endless level: a free 10 by 10 field, eight ticks per
    /// second, no win score, and a randomized start.
    pub fn default() -> (level: Level)
        ensures
            level.wf(),
            level.target_points is None,
            level.start_position is None,
            level.start_direction is None,
            level.obstacles@.len() == 0,
            level.updates_per_second == 8,
            level.height == 10,
            level.width == 10,
    {
        let level = Level {
            target_points: None,
            start_position: None,
            start_direction: None,
            obstacles: Vec::new(),
            updates_per_second: 8,
            height: 10,
            width: 10,
        };
        proof {
            let p = Point { x: 0, y: 0 };
            assert(in_field(p, 10, 10) && !level.obstacles@.contains(p));
        }
        level
    }
}

} // verus!

// Discovering level files: the caller lists a directory's plain file names;
// the library keeps those with the level extension, in sorted order.
verus! {

/// Character-wise lexicographic order on text, by code point.
pub open spec fn lex_le(a: Seq<char>, b: Seq<char>) -> bool
    decreases a.len(),
{
    if a.len() == 0 {
        true
    } else if b.len() == 0 {
        false
    } else if a[0] == b[0] {
        lex_le(a.drop_first(), b.drop_first())
    } else {
        (a[0] as u32) < (b[0] as u32)
    }
}

/// A shared prefix does not affect the lexicographic comparison.
proof fn lemma_lex_skip(a: Seq<char>, b: Seq<char>, i: int)
    requires
        0 <= i <= a.len(),
        i <= b.len(),
        forall|j: int| 0 <= j < i ==> a[j] == b[j],
    ensures
        lex_le(a, b) == lex_le(a.skip(i), b.skip(i)),
    decreases i,
{
    if i == 0 {
        assert(a.skip(0) =~= a);
        assert(b.skip(0) =~= b);
    } else {
        assert(lex_le(a, b) == lex_le(a.drop_first(), b.drop_first()));
        lemma_lex_skip(a.drop_first(), b.drop_first(), i - 1);
        assert(a.drop_first().skip(i - 1) =~= a.skip(i));
        assert(b.drop_first().skip(i - 1) =~= b.skip(i));
    }
}

/// The lexicographic order is total.
proof fn lemma_lex_total(a: Seq<char>, b: Seq<char>)
    ensures
        lex_le(a, b) || lex_le(b, a),
    decreases a.len(),
{
    if a.len() == 0 {
    } else if b.len() == 0 {
    } else if a[0] == b[0] {
        lemma_lex_total(a.drop_first(), b.drop_first());
    } else {
        assert((a[0] as u32) != (b[0] as u32)) by {
            vstd::utf8::char_u32_cast(a[0], a[0] as u32);
            vstd::utf8::char_u32_cast(b[0], b[0] as u32);
        }
    }
}

/// Exec comparison of two names in the lexicographic order.
fn text_le(a: &String, b: &String) -> (r: bool)
    ensures
        r == lex_le(a@, b@),
{
    let a_str = a.as_str();
    let b_str = b.as_str();
    let a_len = a_str.unicode_len();
    let b_len = b_str.unicode_len();
    let mut i: usize = 0;
    while i < a_len && i < b_len
        invariant
            a_str@ == a@,
            b_str@ == b@,
            a_len == a@.len(),
            b_len == b@.len(),
            0 <= i <= a_len,
            i <= b_len,
            forall|j: int| 0 <= j < i ==> a@[j] == b@[j],
        decreases a_len - i,
    {
        let ca = a_str.get_char(i);
        let cb = b_str.get_char(i);
        if ca != cb {
            proof {
                lemma_lex_skip(a@, b@, i as int);
                assert(a@.skip(i as int)[0] == ca);
                assert(b@.skip(i as int)[0] == cb);
            }
            return (ca as u32) < (cb as u32);
        }
        i = i + 1;
    }
    proof {
        lemma_lex_skip(a@, b@, i as int);
    }
    a_len <= b_len
}

/// The name carries the level-file extension: it ends in `.json` after a
/// non-empty stem.
pub open spec fn is_level_name(s: Seq<char>) -> bool {
    &&& s.len() >= 6
    &&& s[s.len() - 5] == '.'
    &&& s[s.len() - 4] == 'j'
    &&& s[s.len() - 3] == 's'
    &&& s[s.len() - 2] == 'o'
    &&& s[s.len() - 1] == 'n'
}

/// Exec test for the level-file extension.
fn has_level_extension(name: &String) -> (r: bool)
    ensures
        r == is_level_name(name@),
{
    let s = name.as_str();
    let n = s.unicode_len();
    if n < 6 {
        return false;
    }
    s.get_char(n - 5) == '.' && s.get_char(n - 4) == 'j' && s.get_char(n - 3) == 's'
        && s.get_char(n - 2) == 'o' && s.get_char(n - 1) == 'n'
}

/// Adjacent pairs are in order.
pub open spec fn sorted_names(v: Seq<Seq<char>>) -> bool {
    forall|i: int| 0 <= i < v.len() - 1 ==> lex_le(#[trigger] v[i], v[i + 1])
}

/// The multiset of the names that carry the level extension.
pub open spec fn level_names_of(names: Seq<Seq<char>>) -> Multiset<Seq<char>>
    decreases names.len(),
{
    if names.len() == 0 {
        Multiset::empty()
    } else if is_level_name(names.last()) {
        level_names_of(names.drop_last()).insert(names.last())
    } else {
        level_names_of(names.drop_last())
    }
}

/// The empty name list has the empty multiset.
proof fn lemma_to_multiset_empty()
    ensures
        Seq::<Seq<char>>::empty().to_multiset() =~= Multiset::<Seq<char>>::empty(),
{
    broadcast use vstd::seq_lib::group_to_multiset_ensures;
    broadcast use vstd::multiset::group_multiset_axioms;

    let s = Seq::<Seq<char>>::empty();
    assert forall|x: Seq<char>|
        s.to_multiset().count(x) == Multiset::<Seq<char>>::empty().count(x) by {
        assert(!s.contains(x));
        assert(s.to_multiset().count(x) == 0);
    }
}

/// Inserting an element anywhere adds exactly it to the sequence's multiset.
proof fn lemma_to_multiset_insert(s: Seq<Seq<char>>, i: int, x: Seq<char>)
    requires
        0 <= i <= s.len(),
    ensures
        s.insert(i, x).to_multiset() =~= s.to_multiset().insert(x),
    decreases s.len() - i,
{
    broadcast use vstd::seq_lib::group_to_multiset_ensures;

    if i == s.len() {
        assert(s.insert(i, x) =~= s.push(x));
    } else {
        let t = s.drop_last();
        let l = s.last();
        s.insert_ensures(i, x);
        t.insert_ensures(i, x);
        assert(s =~= t.push(l));
        assert(s.insert(i, x) =~= t.insert(i, x).push(l));
        lemma_to_multiset_insert(t, i, x);
        assert(t.to_multiset().insert(x).insert(l) =~= t.to_multiset().insert(l).insert(x));
    }
}

/// The first position whose element does not come before `s`.
fn find_insert_pos(v: &Vec<String>, s: &String) -> (pos: usize)
    ensures
        pos <= v@.len(),
        forall|j: int| 0 <= j < pos ==> lex_le(v.deep_view()[j], s@),
        pos < v@.len() ==> !lex_le(v.deep_view()[pos as int], s@),
{
    let mut i: usize = 0;
    while i < v.len()
        invariant
            0 <= i <= v@.len(),
            forall|j: int| 0 <= j < i ==> lex_le(v.deep_view()[j], s@),
        decreases v@.len() - i,
    {
        if !text_le(&v[i], s) {
            return i;
        }
        assert(v.deep_view()[i as int] == v@[i as int]@);
        i = i + 1;
    }
    i
}

/// Inserts a name into a sorted list, keeping it sorted; exactly that name
/// joins the list's contents.
fn insert_sorted(v: &mut Vec<String>, s: String)
    requires
        sorted_names(old(v).deep_view()),
    ensures
        sorted_names(final(v).deep_view()),
        final(v).deep_view().to_multiset() == old(v).deep_view().to_multiset().insert(s@),
{
    let pos = find_insert_pos(v, &s);
    let ghost old_dv = v.deep_view();
    let ghost sview = s@;
    proof {
        if pos < v@.len() {
            lemma_lex_total(sview, old_dv[pos as int]);
        }
    }
    v.insert(pos, s);
    proof {
        old_dv.insert_ensures(pos as int, sview);
        assert(v.deep_view() =~= old_dv.insert(pos as int, sview));
        lemma_to_multiset_insert(old_dv, pos as int, sview);
        let dv = v.deep_view();
        assert forall|i: int| 0 <= i < dv.len() - 1 implies lex_le(#[trigger] dv[i], dv[i + 1]) by {
            if i + 1 < pos {
                assert(dv[i] == old_dv[i] && dv[i + 1] == old_dv[i + 1]);
            } else if i + 1 == pos {
                assert(dv[i] == old_dv[i] && dv[i + 1] == sview);
            } else if i == pos {
                assert(dv[i] == sview && dv[i + 1] == old_dv[i]);
            } else {
                assert(dv[i] == old_dv[i - 1] && dv[i + 1] == old_dv[i]);
            }
        }
    }
}

/// Keeps the file names that carry the level extension and sorts them in the
/// character-wise lexicographic order: the result is sorted and holds exactly
/// the matching names, each as often as it occurs.
pub fn select_level_files(names: &Vec<String>) -> (r: Vec<String>)
    ensures
        sorted_names(r.deep_view()),
        r.deep_view().to_multiset() == level_names_of(names.deep_view()),
{
    let mut r: Vec<String> = Vec::new();
    proof {
        lemma_to_multiset_empty();
        assert(r.deep_view() =~= Seq::<Seq<char>>::empty());
        assert(names.deep_view().take(0) =~= Seq::<Seq<char>>::empty());
    }
    let mut i: usize = 0;
    while i < names.len()
        invariant
            0 <= i <= names@.len(),
            sorted_names(r.deep_view()),
            r.deep_view().to_multiset() == level_names_of(names.deep_view().take(i as int)),
        decreases names@.len() - i,
    {
        let name = &names[i];
        proof {
            assert(names.deep_view()[i as int] == names@[i as int]@);
        }
        if has_level_extension(name) {
            insert_sorted(&mut r, name.clone());
        }
        proof {
            assert(names.deep_view().take(i as int + 1).drop_last() =~= names.deep_view().take(
                i as int,
            ));
            assert(names.deep_view().take(i as int + 1).last() == names.deep_view()[i as int]);
        }
        i = i + 1;
    }
    proof {
        assert(names.deep_view().take(names@.len() as int) =~= names.deep_view());
    }
    r
}

} // verus!
