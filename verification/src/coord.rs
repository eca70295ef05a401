//! Tile coordinates and the parser that recovers one from a save-data
//! filename of the form `chunkdata_<x>_<y>` or `zpop_<x>_<y>`.

use vstd::prelude::*;

use crate::parse_int::{parse_i32, spec_parse_i32};
use crate::text::{chars_of, find_char, find_first, subvec};

verus! {

/// A tile coordinate on the map: a signed integer pair.
#[derive(Copy, Clone, Debug, PartialEq, Eq, Structural)]
pub struct MapCoord {
    pub x: i32,
    pub y: i32,
}

impl MapCoord {
    pub fn new(x: i32, y: i32) -> (r: Self)
        ensures
            r.x == x,
            r.y == y,
    {
        MapCoord { x, y }
    }
}

/// Why a filename does not name a tile coordinate.
#[derive(Copy, Clone, Debug, PartialEq, Eq, Structural)]
pub enum MapCoordParseError {
    /// A coordinate segment is not a valid integer.
    NonNumberSegment,
    /// The y coordinate segment is absent.
    NotEnoughSegments,
    /// The filename starts with neither recognized prefix.
    UnknownPrefix,
    /// Segments follow the two coordinates.
    TooManySegments,
}

/// `s` starts with the characters of `p`.
pub open spec fn has_prefix(s: Seq<char>, p: Seq<char>) -> bool {
    s.len() >= p.len() && s.subrange(0, p.len() as int) == p
}

/// Parses what follows a recognized prefix: an `x` segment, an underscore,
/// a `y` segment, and nothing further. The segments are read left to
/// right, so a malformed `x` is reported before a missing or malformed
/// `y`, and a malformed `y` before trailing segments.
pub open spec fn spec_parse_coord_rest(rem: Seq<char>) -> Result<MapCoord, MapCoordParseError> {
    match find_first(rem, '_') {
        None => match spec_parse_i32(rem) {
            Err(_) => Err(MapCoordParseError::NonNumberSegment),
            Ok(_) => Err(MapCoordParseError::NotEnoughSegments),
        },
        Some(i) => match spec_parse_i32(rem.subrange(0, i)) {
            Err(_) => Err(MapCoordParseError::NonNumberSegment),
            Ok(x) => {
                let rest = rem.subrange(i + 1, rem.len() as int);
                match find_first(rest, '_') {
                    None => match spec_parse_i32(rest) {
                        Err(_) => Err(MapCoordParseError::NonNumberSegment),
                        Ok(y) => Ok(MapCoord { x, y }),
                    },
                    Some(j) => match spec_parse_i32(rest.subrange(0, j)) {
                        Err(_) => Err(MapCoordParseError::NonNumberSegment),
                        Ok(_) => Err(MapCoordParseError::TooManySegments),
                    },
                }
            },
        },
    }
}

/// The tile coordinate a filename denotes, or the first applicable error:
/// the name must begin with `chunkdata_` or `zpop_`, followed by the two
/// underscore-separated integer coordinates and nothing further.
pub open spec fn spec_parse_map_coord(s: Seq<char>) -> Result<MapCoord, MapCoordParseError> {
    if has_prefix(s, "chunkdata_"@) {
        spec_parse_coord_rest(s.subrange(10, s.len() as int))
    } else if has_prefix(s, "zpop_"@) {
        spec_parse_coord_rest(s.subrange(5, s.len() as int))
    } else {
        Err(MapCoordParseError::UnknownPrefix)
    }
}

/// Tests whether the characters of `v` start with the characters of `p`.
fn has_prefix_exec(v: &Vec<char>, p: &str) -> (r: bool)
    ensures
        r == has_prefix(v@, p@),
{
    let plen: usize = p.unicode_len();
    if v.len() < plen {
        return false;
    }
    let mut i: usize = 0;
    while i < plen
        invariant
            i <= plen,
            plen == p@.len(),
            v@.len() >= plen,
            forall|j: int| 0 <= j < i ==> v@[j] == p@[j],
        decreases plen - i,
    {
        let c = p.get_char(i);
        if v[i] != c {
            assert(v@.subrange(0, plen as int)[i as int] != p@[i as int]);
            return false;
        }
        i = i + 1;
    }
    assert(v@.subrange(0, plen as int) =~= p@);
    true
}

impl MapCoord {
    /// Parses a save-data filename (`chunkdata_<x>_<y>` or `zpop_<x>_<y>`)
    /// into the tile coordinate it names.
    pub fn from_str(s: &str) -> (r: Result<MapCoord, MapCoordParseError>)
        ensures
            r == spec_parse_map_coord(s@),
    {
        let cs = chars_of(s);
        let is_chunk = has_prefix_exec(&cs, "chunkdata_");
        let is_zpop = has_prefix_exec(&cs, "zpop_");
        if !is_chunk && !is_zpop {
            return Err(MapCoordParseError::UnknownPrefix);
        }
        proof {
            reveal_strlit("chunkdata_");
            reveal_strlit("zpop_");
        }
        let plen: usize = if is_chunk {
            10
        } else {
            5
        };
        let rem = subvec(&cs, plen, cs.len());
        let rem_len = rem.len();
        let xi = match find_char(&rem, '_') {
            None => {
                return match parse_i32(&rem) {
                    Err(_) => Err(MapCoordParseError::NonNumberSegment),
                    Ok(_) => Err(MapCoordParseError::NotEnoughSegments),
                };
            },
            Some(i) => i,
        };
        let x = match parse_i32(&subvec(&rem, 0, xi)) {
            Err(_) => {
                return Err(MapCoordParseError::NonNumberSegment);
            },
            Ok(v) => v,
        };
        let rest = subvec(&rem, xi + 1, rem_len);
        match find_char(&rest, '_') {
            None => match parse_i32(&rest) {
                Err(_) => Err(MapCoordParseError::NonNumberSegment),
                Ok(y) => Ok(MapCoord { x, y }),
            },
            Some(j) => match parse_i32(&subvec(&rest, 0, j)) {
                Err(_) => Err(MapCoordParseError::NonNumberSegment),
                Ok(_) => Err(MapCoordParseError::TooManySegments),
            },
        }
    }
}

/// The two recognized filename prefixes are interchangeable: a
/// `chunkdata_` name and a `zpop_` name with the same remainder parse to
/// the same result.
pub proof fn lemma_prefix_agnostic(rest: Seq<char>)
    ensures
        spec_parse_map_coord("chunkdata_"@ + rest) == spec_parse_map_coord("zpop_"@ + rest),
{
    reveal_strlit("chunkdata_");
    reveal_strlit("zpop_");
    let c = "chunkdata_"@ + rest;
    let z = "zpop_"@ + rest;
    assert(c.subrange(0, 10) =~= "chunkdata_"@);
    assert(z.subrange(0, 5) =~= "zpop_"@);
    assert(!has_prefix(z, "chunkdata_"@)) by {
        if has_prefix(z, "chunkdata_"@) {
            assert(z.subrange(0, 10)[0] == z[0]);
        }
    }
    assert(c.subrange(10, c.len() as int) =~= rest);
    assert(z.subrange(5, z.len() as int) =~= rest);
}

} // verus!
