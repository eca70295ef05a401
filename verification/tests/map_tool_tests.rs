use pz_map_tool::{
    coords_to_chunks, Action, CoordRange, IntParseError, InvalidMapRegion, MapChunkRegion,
    MapCoord, MapCoordParseError, MapRegion, MapRegionPart, ModifyMap, SavePaths,
};

fn region(xs: i32, xe: i32, ys: i32, ye: i32) -> MapRegion {
    MapRegion::new(CoordRange::new(xs, xe), CoordRange::new(ys, ye))
}

#[test]
fn parse_map_region_simple_both_positive() {
    assert_eq!(MapRegion::from_str("0:1,0:1"), Ok(region(0, 1, 0, 1)));
}

#[test]
fn parse_map_region_high_low_both_positive() {
    assert_eq!(MapRegion::from_str("1:0,1:0"), Ok(region(0, 1, 0, 1)));
}

#[test]
fn parse_map_region_simple_x_negative() {
    assert_eq!(MapRegion::from_str("-2:-1,0:1"), Ok(region(-2, -1, 0, 1)));
}

#[test]
fn parse_map_region_simple_y_negative() {
    assert_eq!(MapRegion::from_str("0:1,-2:-1"), Ok(region(0, 1, -2, -1)));
}

#[test]
fn parse_map_region_simple_both_negative() {
    assert_eq!(MapRegion::from_str("-2:-1,-2:-1"), Ok(region(-2, -1, -2, -1)));
}

#[test]
fn parse_map_region_high_low_both_cross_zero() {
    assert_eq!(MapRegion::from_str("1:-2,1:-2"), Ok(region(-2, 1, -2, 1)));
}

#[test]
fn parse_map_region_errors_missing_a_comma() {
    assert_eq!(
        MapRegion::from_str("0:10:1"),
        Err(InvalidMapRegion::MissingComma)
    );
}

#[test]
fn parse_map_region_errors_missing_the_x_colon() {
    assert_eq!(
        MapRegion::from_str("01,0:1"),
        Err(InvalidMapRegion::MissingColonX)
    );
}

#[test]
fn parse_map_region_errors_missing_the_y_colon() {
    assert_eq!(
        MapRegion::from_str("0:1,01"),
        Err(InvalidMapRegion::MissingColonY)
    );
}

#[test]
fn parse_map_region_errors_x_start_is_nan() {
    assert_eq!(
        MapRegion::from_str("a:1,0:1"),
        Err(InvalidMapRegion::InvalidPart(
            MapRegionPart::StartX,
            IntParseError::InvalidDigit
        ))
    );
}

#[test]
fn parse_map_region_errors_x_end_is_nan() {
    assert_eq!(
        MapRegion::from_str("1:a,0:1"),
        Err(InvalidMapRegion::InvalidPart(
            MapRegionPart::EndX,
            IntParseError::InvalidDigit
        ))
    );
}

#[test]
fn parse_map_region_errors_y_start_is_nan() {
    assert_eq!(
        MapRegion::from_str("1:0,a:1"),
        Err(InvalidMapRegion::InvalidPart(
            MapRegionPart::StartY,
            IntParseError::InvalidDigit
        ))
    );
}

#[test]
fn parse_map_region_errors_y_end_is_nan() {
    assert_eq!(
        MapRegion::from_str("1:0,1:a"),
        Err(InvalidMapRegion::InvalidPart(
            MapRegionPart::EndY,
            IntParseError::InvalidDigit
        ))
    );
}

#[test]
fn parse_map_region_empty_start_reports_empty() {
    assert_eq!(
        MapRegion::from_str(":1,0:1"),
        Err(InvalidMapRegion::InvalidPart(
            MapRegionPart::StartX,
            IntParseError::Empty
        ))
    );
}

#[test]
fn parse_map_region_extreme_bounds() {
    assert_eq!(
        MapRegion::from_str("-2147483648:2147483647,0:0"),
        Ok(region(i32::MIN, i32::MAX, 0, 0))
    );
}

#[test]
fn parse_map_region_overflow_errors() {
    assert_eq!(
        MapRegion::from_str("2147483648:0,0:0"),
        Err(InvalidMapRegion::InvalidPart(
            MapRegionPart::StartX,
            IntParseError::PosOverflow
        ))
    );
    assert_eq!(
        MapRegion::from_str("0:-2147483649,0:0"),
        Err(InvalidMapRegion::InvalidPart(
            MapRegionPart::EndX,
            IntParseError::NegOverflow
        ))
    );
}

#[test]
fn parse_map_region_accepts_plus_sign_and_normalizes() {
    assert_eq!(MapRegion::from_str("+5:1,0:0"), Ok(region(1, 5, 0, 0)));
}

#[test]
fn map_regions_outside_either_is_excluded() {
    let range = region(0, 10, 10, 20);
    for (x, y) in [(-1, 9), (0, 9), (-1, 10), (11, 20), (10, 21), (11, 21)] {
        assert!(!range.contains(&MapCoord::new(x, y)));
    }
}

#[test]
fn map_regions_boundaries_are_included() {
    let range = region(0, 10, 10, 20);
    assert!(range.contains(&MapCoord::new(0, 10)));
    assert!(range.contains(&MapCoord::new(10, 20)));
}

#[test]
fn map_regions_inside_both_coords_are_included() {
    let range = region(0, 2, 10, 12);
    for x in 0..=2 {
        for y in 10..=12 {
            assert!(range.contains(&MapCoord::new(x, y)));
        }
    }
}

#[test]
fn map_coords_to_chunks() {
    assert_eq!(
        coords_to_chunks(&CoordRange::new(6596, 6866)),
        CoordRange::new(21, 23)
    );
    assert_eq!(
        coords_to_chunks(&CoordRange::new(5286, 5568)),
        CoordRange::new(17, 19)
    );
}

#[test]
fn map_coords_to_chunks_negative_floor() {
    assert_eq!(
        coords_to_chunks(&CoordRange::new(-1, 1)),
        CoordRange::new(-1, 1)
    );
    assert_eq!(
        coords_to_chunks(&CoordRange::new(-300, -1)),
        CoordRange::new(-1, 0)
    );
    assert_eq!(
        coords_to_chunks(&CoordRange::new(-301, -300)),
        CoordRange::new(-2, 0)
    );
}

#[test]
fn map_coord_region_to_chunk_region() {
    let map_coords = MapRegion::new(CoordRange::new(6596, 6866), CoordRange::new(5286, 5568));
    let expected_map_chunks =
        MapChunkRegion::new(CoordRange::new(21, 23), CoordRange::new(17, 19));
    assert_eq!(expected_map_chunks, map_coords.containing_chunk_region());
}

#[test]
fn parse_filenames_to_coordinates() {
    for filename in ["chunkdata_110_474", "zpop_110_474"] {
        let coord = MapCoord::from_str(filename).unwrap();
        assert_eq!(MapCoord::new(110, 474), coord);
    }
}

#[test]
fn invalid_filenames_dont_parse() {
    assert_eq!(
        MapCoord::from_str("badprefix_10_10"),
        Err(MapCoordParseError::UnknownPrefix)
    );
    assert_eq!(
        MapCoord::from_str("zpop_nonnum_10"),
        Err(MapCoordParseError::NonNumberSegment)
    );
    assert_eq!(
        MapCoord::from_str("chunkdata_10"),
        Err(MapCoordParseError::NotEnoughSegments)
    );
    assert_eq!(
        MapCoord::from_str("zpop_777_666_final"),
        Err(MapCoordParseError::TooManySegments)
    );
}

#[test]
fn parse_filenames_negative_coordinates() {
    assert_eq!(
        MapCoord::from_str("zpop_-3_-4"),
        Ok(MapCoord::new(-3, -4))
    );
}

#[test]
fn save_paths_derivation() {
    let paths = SavePaths::new(String::from("/home/user/Zomboid/Saves/MySave")).unwrap();
    assert_eq!(paths.root_path, "/home/user/Zomboid/Saves/MySave");
    assert_eq!(paths.player_path, "/home/user/Zomboid/Saves/MySave_player");
    assert_eq!(
        paths.iso_region_path,
        "/home/user/Zomboid/Saves/MySave/isoregiondata"
    );
}

#[test]
fn save_paths_bare_name() {
    let paths = SavePaths::new(String::from("MySave")).unwrap();
    assert_eq!(paths.player_path, "MySave_player");
    assert_eq!(paths.iso_region_path, "MySave/isoregiondata");
}

#[test]
fn save_paths_ignores_trailing_separator() {
    let paths = SavePaths::new(String::from("/saves/MySave/")).unwrap();
    assert_eq!(paths.player_path, "/saves/MySave_player");
    assert_eq!(paths.iso_region_path, "/saves/MySave/isoregiondata");
}

#[test]
fn save_paths_requires_final_component() {
    assert!(SavePaths::new(String::new()).is_none());
    assert!(SavePaths::new(String::from("/")).is_none());
    assert!(SavePaths::new(String::from("///")).is_none());
}

#[test]
fn save_paths_rejects_dot_only_and_parent_roots() {
    assert!(SavePaths::new(String::from(".")).is_none());
    assert!(SavePaths::new(String::from("./")).is_none());
    assert!(SavePaths::new(String::from("/.")).is_none());
    assert!(SavePaths::new(String::from("..")).is_none());
    assert!(SavePaths::new(String::from("../")).is_none());
    assert!(SavePaths::new(String::from("a/..")).is_none());
}

#[test]
fn save_paths_skips_trailing_dot_components() {
    let paths = SavePaths::new(String::from("a/.")).unwrap();
    assert_eq!(paths.root_path, "a/.");
    assert_eq!(paths.player_path, "a_player");
    assert_eq!(paths.iso_region_path, "a/./isoregiondata");

    let paths = SavePaths::new(String::from("/saves/MySave/./")).unwrap();
    assert_eq!(paths.player_path, "/saves/MySave_player");
    assert_eq!(paths.iso_region_path, "/saves/MySave/./isoregiondata");
}

#[test]
fn save_paths_keeps_dotted_names() {
    let paths = SavePaths::new(String::from("a/...")).unwrap();
    assert_eq!(paths.player_path, "a/..._player");
    let paths = SavePaths::new(String::from("a/.hidden")).unwrap();
    assert_eq!(paths.player_path, "a/.hidden_player");
}

#[test]
fn action_opposite_flips_and_inverts() {
    assert_eq!(Action::Save.opposite(), Action::Delete);
    assert_eq!(Action::Delete.opposite(), Action::Save);
    assert_eq!(Action::Save.opposite().opposite(), Action::Save);
}

#[test]
fn modify_map_exceptions_flip_the_default() {
    let plan = ModifyMap::new(
        String::from("/saves/MySave"),
        Action::Delete,
        vec![region(0, 10, 0, 10), region(100, 110, 100, 110)],
    );
    assert_eq!(plan.action_for(&MapCoord::new(5, 5)), Action::Save);
    assert_eq!(plan.action_for(&MapCoord::new(105, 100)), Action::Save);
    assert_eq!(plan.action_for(&MapCoord::new(11, 5)), Action::Delete);
}

#[test]
fn modify_map_decides_per_file() {
    let plan = ModifyMap::new(
        String::from("/saves/MySave"),
        Action::Save,
        vec![region(0, 299, 0, 299)],
    );
    assert_eq!(
        plan.action_for_file("chunkdata_5_5"),
        Some(Action::Delete)
    );
    assert_eq!(plan.action_for_file("zpop_5_5"), Some(Action::Delete));
    assert_eq!(plan.action_for_file("chunkdata_300_5"), Some(Action::Save));
    assert_eq!(plan.action_for_file("map.bin"), None);
    assert_eq!(plan.action_for_file("chunkdata_5"), None);
}
