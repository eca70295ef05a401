//! Rectangular map regions over tile coordinates: parsing the textual
//! `xStart:xEnd,yStart:yEnd` form, point containment, and mapping a tile
//! region onto the 300x300-tile chunk grid.

use vstd::prelude::*;

use crate::coord::MapCoord;
use crate::parse_int::{
    is_digit, lemma_parse_render_i32, lemma_render_chars, parse_i32, spec_parse_i32,
    spec_render_i32, IntParseError,
};
use crate::text::{chars_of, find_char, find_first, subvec};

verus! {

/// Tiles per chunk along each axis: one chunk file covers a 300x300 tile
/// square.
pub const CHUNK_SIZE: i32 = 300;

/// An inclusive range of integer coordinates along one axis.
#[derive(Copy, Clone, Debug, PartialEq, Eq, Structural)]
pub struct CoordRange {
    pub start: i32,
    pub end: i32,
}

impl CoordRange {
    /// The same bounds, swapped where needed so that `start <= end`.
    pub open spec fn spec_normalized(self) -> CoordRange {
        if self.end < self.start {
            CoordRange { start: self.end, end: self.start }
        } else {
            self
        }
    }

    /// `v` lies between the bounds, both included.
    pub open spec fn spec_contains(self, v: i32) -> bool {
        self.start <= v <= self.end
    }

    pub fn new(start: i32, end: i32) -> (r: Self)
        ensures
            r.start == start,
            r.end == end,
    {
        CoordRange { start, end }
    }

    /// This range with ascending bounds, swapping the two where given
    /// high-to-low.
    pub fn normalized(self) -> (r: Self)
        ensures
            r == self.spec_normalized(),
    {
        if self.end < self.start {
            CoordRange { start: self.end, end: self.start }
        } else {
            self
        }
    }
}

/// Which of the four integer components of a region specification was
/// malformed.
#[derive(Copy, Clone, Debug, PartialEq, Eq, Structural)]
pub enum MapRegionPart {
    StartX,
    EndX,
    StartY,
    EndY,
}

/// Why a textual region specification was rejected; validation is strictly
/// ordered, so a string broken in several ways reports the earliest
/// structural problem.
#[derive(Copy, Clone, Debug, PartialEq, Eq, Structural)]
pub enum InvalidMapRegion {
    /// No comma separates the x range from the y range.
    MissingComma,
    /// The x range has no colon between its beginning and its end.
    MissingColonX,
    /// The y range has no colon between its beginning and its end.
    MissingColonY,
    /// The named component is not a valid integer; the underlying integer
    /// parse error is kept for diagnostics.
    InvalidPart(MapRegionPart, IntParseError),
}

/// A rectangular region of the map: a pair of inclusive tile-coordinate
/// ranges, each stored low-to-high.
#[derive(Copy, Clone, Debug, PartialEq, Eq, Structural)]
pub struct MapRegion {
    pub x_range: CoordRange,
    pub y_range: CoordRange,
}

/// The region a specification string denotes, or the first applicable
/// error: split on the first comma, split each side on its first colon,
/// then read the four integers in order (x start, x end, y start, y end);
/// each axis is normalized to ascending bounds.
pub open spec fn spec_parse_map_region(s: Seq<char>) -> Result<MapRegion, InvalidMapRegion> {
    match find_first(s, ',') {
        None => Err(InvalidMapRegion::MissingComma),
        Some(ci) => {
            let xs = s.subrange(0, ci);
            let ys = s.subrange(ci + 1, s.len() as int);
            match find_first(xs, ':') {
                None => Err(InvalidMapRegion::MissingColonX),
                Some(xi) => match find_first(ys, ':') {
                    None => Err(InvalidMapRegion::MissingColonY),
                    Some(yi) => match spec_parse_i32(xs.subrange(0, xi)) {
                        Err(e) => Err(InvalidMapRegion::InvalidPart(MapRegionPart::StartX, e)),
                        Ok(xb) => match spec_parse_i32(xs.subrange(xi + 1, xs.len() as int)) {
                            Err(e) => Err(InvalidMapRegion::InvalidPart(MapRegionPart::EndX, e)),
                            Ok(xe) => match spec_parse_i32(ys.subrange(0, yi)) {
                                Err(e) => Err(
                                    InvalidMapRegion::InvalidPart(MapRegionPart::StartY, e),
                                ),
                                Ok(yb) => match spec_parse_i32(ys.subrange(yi + 1, ys.len() as int)) {
                                    Err(e) => Err(
                                        InvalidMapRegion::InvalidPart(MapRegionPart::EndY, e),
                                    ),
                                    Ok(ye) => Ok(
                                        MapRegion {
                                            x_range: (CoordRange { start: xb, end: xe }).spec_normalized(),
                                            y_range: (CoordRange { start: yb, end: ye }).spec_normalized(),
                                        },
                                    ),
                                },
                            },
                        },
                    },
                },
            }
        },
    }
}

impl MapRegion {
    /// Both ranges are stored low-to-high.
    pub open spec fn wf(self) -> bool {
        self.x_range.start <= self.x_range.end && self.y_range.start <= self.y_range.end
    }

    /// The coordinate lies within both ranges, bounds included.
    pub open spec fn spec_contains(self, c: MapCoord) -> bool {
        self.x_range.spec_contains(c.x) && self.y_range.spec_contains(c.y)
    }

    /// The chunk-grid region covering this tile region: per axis,
    /// `floor(start / 300)` through `floor(end / 300) + 1`, inclusive.
    pub open spec fn spec_containing_chunk_region(self) -> MapChunkRegion {
        MapChunkRegion {
            x_range: spec_coords_to_chunks(self.x_range),
            y_range: spec_coords_to_chunks(self.y_range),
        }
    }

    /// Builds a region from two coordinate ranges, swapping the bounds of
    /// either range where given high-to-low, so that both ranges are stored
    /// ascending.
    pub fn new(x_range: CoordRange, y_range: CoordRange) -> (r: Self)
        ensures
            r.x_range == x_range.spec_normalized(),
            r.y_range == y_range.spec_normalized(),
            r.wf(),
    {
        MapRegion { x_range: x_range.normalized(), y_range: y_range.normalized() }
    }

    /// Parses a `xStart:xEnd,yStart:yEnd` specification into a normalized
    /// region, reporting the earliest structural problem of a malformed
    /// string.
    pub fn from_str(s: &str) -> (r: Result<MapRegion, InvalidMapRegion>)
        ensures
            r == spec_parse_map_region(s@),
            r is Ok ==> r->Ok_0.wf(),
    {
        let cs = chars_of(s);
        let cs_len = cs.len();
        let ci = match find_char(&cs, ',') {
            None => {
                return Err(InvalidMapRegion::MissingComma);
            },
            Some(i) => i,
        };
        let xs = subvec(&cs, 0, ci);
        let ys = subvec(&cs, ci + 1, cs_len);
        let xi = match find_char(&xs, ':') {
            None => {
                return Err(InvalidMapRegion::MissingColonX);
            },
            Some(i) => i,
        };
        let yi = match find_char(&ys, ':') {
            None => {
                return Err(InvalidMapRegion::MissingColonY);
            },
            Some(i) => i,
        };
        let x_begin = match parse_i32(&subvec(&xs, 0, xi)) {
            Err(e) => {
                return Err(InvalidMapRegion::InvalidPart(MapRegionPart::StartX, e));
            },
            Ok(v) => v,
        };
        let x_end = match parse_i32(&subvec(&xs, xi + 1, xs.len())) {
            Err(e) => {
                return Err(InvalidMapRegion::InvalidPart(MapRegionPart::EndX, e));
            },
            Ok(v) => v,
        };
        let y_begin = match parse_i32(&subvec(&ys, 0, yi)) {
            Err(e) => {
                return Err(InvalidMapRegion::InvalidPart(MapRegionPart::StartY, e));
            },
            Ok(v) => v,
        };
        let y_end = match parse_i32(&subvec(&ys, yi + 1, ys.len())) {
            Err(e) => {
                return Err(InvalidMapRegion::InvalidPart(MapRegionPart::EndY, e));
            },
            Ok(v) => v,
        };
        Ok(
            MapRegion::new(
                CoordRange { start: x_begin, end: x_end },
                CoordRange { start: y_begin, end: y_end },
            ),
        )
    }

    /// Tests whether the coordinate lies in this region; both range bounds
    /// are included.
    pub fn contains(&self, map_coord: &MapCoord) -> (r: bool)
        ensures
            r == self.spec_contains(*map_coord),
    {
        self.x_range.start <= map_coord.x && map_coord.x <= self.x_range.end
            && self.y_range.start <= map_coord.y && map_coord.y <= self.y_range.end
    }

    /// The chunk-grid region whose files cover this tile region; for a
    /// well-formed region both chunk ranges are ascending by construction.
    pub fn containing_chunk_region(&self) -> (r: MapChunkRegion)
        ensures
            r == self.spec_containing_chunk_region(),
            self.wf() ==> r.x_range.start < r.x_range.end && r.y_range.start < r.y_range.end,
    {
        MapChunkRegion::new(coords_to_chunks(&self.x_range), coords_to_chunks(&self.y_range))
    }
}

/// A rectangular region of the chunk-file grid: a pair of inclusive
/// chunk-coordinate ranges.
#[derive(Copy, Clone, Debug, PartialEq, Eq, Structural)]
pub struct MapChunkRegion {
    pub x_range: CoordRange,
    pub y_range: CoordRange,
}

impl MapChunkRegion {
    pub fn new(x_range: CoordRange, y_range: CoordRange) -> (r: Self)
        ensures
            r.x_range == x_range,
            r.y_range == y_range,
    {
        MapChunkRegion { x_range, y_range }
    }
}

/// The chunk-grid cell a tile coordinate falls in: floor division by the
/// chunk size (in spec mode, `/` on `int` rounds toward negative infinity
/// for a positive divisor).
pub open spec fn spec_chunk_of(tile: int) -> int {
    tile / (CHUNK_SIZE as int)
}

/// The inclusive chunk range for an inclusive tile range: the chunk of the
/// low bound through the chunk of the high bound plus one extra chunk of
/// margin.
pub open spec fn spec_coords_to_chunks(coords: CoordRange) -> CoordRange {
    CoordRange {
        start: spec_chunk_of(coords.start as int) as i32,
        end: (spec_chunk_of(coords.end as int) + 1) as i32,
    }
}

/// Floor division of any `i32` by the chunk size stays well inside the
/// `i32` range.
proof fn lemma_chunk_of_bounds(tile: int)
    requires
        i32::MIN <= tile <= i32::MAX,
    ensures
        -7158279 <= spec_chunk_of(tile) <= 7158278,
{
    vstd::arithmetic::div_mod::lemma_fundamental_div_mod_converse(
        i32::MIN as int,
        CHUNK_SIZE as int,
        -7158279,
        52,
    );
    vstd::arithmetic::div_mod::lemma_fundamental_div_mod_converse(
        i32::MAX as int,
        CHUNK_SIZE as int,
        7158278,
        247,
    );
    vstd::arithmetic::div_mod::lemma_div_is_ordered(i32::MIN as int, tile, CHUNK_SIZE as int);
    vstd::arithmetic::div_mod::lemma_div_is_ordered(tile, i32::MAX as int, CHUNK_SIZE as int);
}

/// The chunk-grid cell holding the tile coordinate `tile`.
pub fn chunk_of(tile: i32) -> (r: i32)
    ensures
        r as int == spec_chunk_of(tile as int),
{
    proof {
        lemma_chunk_of_bounds(tile as int);
    }
    let q = tile.checked_div_euclid(CHUNK_SIZE);
    q.unwrap()
}

/// Maps an inclusive tile-coordinate range to the inclusive chunk-grid
/// range `floor(start / 300) ..= floor(end / 300) + 1`; for an ascending
/// input range the result is ascending as well.
pub fn coords_to_chunks(coords: &CoordRange) -> (r: CoordRange)
    ensures
        r == spec_coords_to_chunks(*coords),
        coords.start <= coords.end ==> r.start < r.end,
{
    proof {
        lemma_chunk_of_bounds(coords.start as int);
        lemma_chunk_of_bounds(coords.end as int);
        if coords.start <= coords.end {
            vstd::arithmetic::div_mod::lemma_div_is_ordered(
                coords.start as int,
                coords.end as int,
                CHUNK_SIZE as int,
            );
        }
    }
    CoordRange { start: chunk_of(coords.start), end: chunk_of(coords.end) + 1 }
}

/// A character of a rendered integer is never a separator.
proof fn lemma_rendered_not_sep(ch: char)
    requires
        ch == '-' || is_digit(ch),
    ensures
        ch != ',' && ch != ':',
{
}

/// Locates the single separator `sep` placed between two separator-free
/// sides `left` and `right`.
proof fn lemma_find_sep(left: Seq<char>, sep: char, right: Seq<char>)
    requires
        forall|j: int| 0 <= j < left.len() ==> left[j] != sep,
    ensures
        ({
            let s = left + seq![sep] + right;
            &&& find_first(s, sep) == Some(left.len() as int)
            &&& s.subrange(0, left.len() as int) == left
            &&& s.subrange(left.len() as int + 1, s.len() as int) == right
        }),
{
    let s = left + seq![sep] + right;
    assert(s[left.len() as int] == sep);
    assert forall|j: int| 0 <= j < left.len() implies s[j] != sep by {
        assert(s[j] == left[j]);
    }
    crate::text::lemma_find_first(s, sep);
    match find_first(s, sep) {
        None => {
            assert(false);
        },
        Some(k) => {
            if k < left.len() {
                assert(s[k] != sep);
            } else if k > left.len() {
                assert(s[left.len() as int] != sep);
            }
        },
    }
    assert(s.subrange(0, left.len() as int) =~= left);
    assert(s.subrange(left.len() as int + 1, s.len() as int) =~= right);
}

/// Parsing a region specification assembled from the decimal renderings of
/// any four integers `a`, `b`, `c`, `d` as `a:b,c:d` succeeds and yields
/// the region whose x range is `[min(a, b), max(a, b)]` and whose y range
/// is `[min(c, d), max(c, d)]`.
pub proof fn lemma_parse_rendered_region(a: i32, b: i32, c: i32, d: i32)
    ensures
        spec_parse_map_region(
            spec_render_i32(a) + seq![':'] + spec_render_i32(b) + seq![','] + spec_render_i32(c)
                + seq![':'] + spec_render_i32(d),
        ) == Ok::<MapRegion, InvalidMapRegion>(
            (MapRegion {
                x_range: (CoordRange {
                    start: if a <= b {
                        a
                    } else {
                        b
                    },
                    end: if a <= b {
                        b
                    } else {
                        a
                    },
                }),
                y_range: (CoordRange {
                    start: if c <= d {
                        c
                    } else {
                        d
                    },
                    end: if c <= d {
                        d
                    } else {
                        c
                    },
                }),
            }),
        ),
{
    let ra = spec_render_i32(a);
    let rb = spec_render_i32(b);
    let rc = spec_render_i32(c);
    let rd = spec_render_i32(d);
    lemma_render_chars(a);
    lemma_render_chars(b);
    lemma_render_chars(c);
    lemma_render_chars(d);
    let xs = ra + seq![':'] + rb;
    let ys = rc + seq![':'] + rd;
    let s = ra + seq![':'] + rb + seq![','] + rc + seq![':'] + rd;
    assert(s =~= xs + seq![','] + ys);
    assert forall|j: int| 0 <= j < xs.len() implies xs[j] != ',' by {
        if j < ra.len() {
            assert(xs[j] == ra[j]);
            lemma_rendered_not_sep(ra[j]);
        } else if j == ra.len() {
            assert(xs[j] == ':');
        } else {
            assert(xs[j] == rb[j - ra.len() - 1]);
            lemma_rendered_not_sep(rb[j - ra.len() - 1]);
        }
    }
    lemma_find_sep(xs, ',', ys);
    assert forall|j: int| 0 <= j < ra.len() implies ra[j] != ':' by {
        lemma_rendered_not_sep(ra[j]);
    }
    lemma_find_sep(ra, ':', rb);
    assert forall|j: int| 0 <= j < rc.len() implies rc[j] != ':' by {
        lemma_rendered_not_sep(rc[j]);
    }
    lemma_find_sep(rc, ':', rd);
    lemma_parse_render_i32(a);
    lemma_parse_render_i32(b);
    lemma_parse_render_i32(c);
    lemma_parse_render_i32(d);
}

/// The containing chunk region covers the region: every tile coordinate a
/// region contains has its chunk-grid cell inside the region's containing
/// chunk region, on both axes — floor division keeps negative coordinates
/// on the correct side.
pub proof fn lemma_chunk_region_covers(region: MapRegion, coord: MapCoord)
    requires
        region.spec_contains(coord),
    ensures
        region.spec_containing_chunk_region().x_range.spec_contains(
            spec_chunk_of(coord.x as int) as i32,
        ),
        region.spec_containing_chunk_region().y_range.spec_contains(
            spec_chunk_of(coord.y as int) as i32,
        ),
{
    lemma_chunk_of_bounds(coord.x as int);
    lemma_chunk_of_bounds(coord.y as int);
    lemma_chunk_of_bounds(region.x_range.start as int);
    lemma_chunk_of_bounds(region.x_range.end as int);
    lemma_chunk_of_bounds(region.y_range.start as int);
    lemma_chunk_of_bounds(region.y_range.end as int);
    vstd::arithmetic::div_mod::lemma_div_is_ordered(
        region.x_range.start as int,
        coord.x as int,
        CHUNK_SIZE as int,
    );
    vstd::arithmetic::div_mod::lemma_div_is_ordered(
        coord.x as int,
        region.x_range.end as int,
        CHUNK_SIZE as int,
    );
    vstd::arithmetic::div_mod::lemma_div_is_ordered(
        region.y_range.start as int,
        coord.y as int,
        CHUNK_SIZE as int,
    );
    vstd::arithmetic::div_mod::lemma_div_is_ordered(
        coord.y as int,
        region.y_range.end as int,
        CHUNK_SIZE as int,
    );
}

} // verus!
