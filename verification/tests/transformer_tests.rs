use route_tracker::anchor_csv::AnchorTableError;
use route_tracker::transformer::{format_map_id, MapAnchorRow, WorldPositionTransformer};

#[test]
fn empty_transformer_converts_nothing() {
    let t = WorldPositionTransformer::empty();
    assert_eq!(t.local_to_world_first(0x3C2A2400, 1000, 2000, 3000), None);
    assert_eq!(t.local_to_world_first(0, 0, 0, 0), None);
    assert_eq!(t.map_count(), 0);
    assert_eq!(t.anchor_count(), 0);
}

#[test]
fn single_row_translates_planar_axes_only() {
    // Tile 10 anchored to tile 99 (which has no row: the global frame)
    // with translation (+1.5, -2.25) world units.
    let t = WorldPositionTransformer::from_csv(b"10,99,1.5,-2.25\n").unwrap();
    assert_eq!(t.anchor_count(), 1);
    assert_eq!(t.map_count(), 1);
    let g = t.local_to_world_first(10, 1000, 7777, 1000).unwrap();
    assert_eq!(g, (2500, 7777, -1250));
    // A tile without a row fails; the caller falls back to local values.
    assert_eq!(t.local_to_world_first(11, 1000, 7777, 1000), None);
}

#[test]
fn chained_anchors_accumulate_translations() {
    // 10 -> 20 (+1, +2), 20 -> 30 (+10, +20); 30 has no row.
    let t = WorldPositionTransformer::from_csv(b"10,20,1,2\n20,30,10,20\n").unwrap();
    let g = t.local_to_world_first(10, 0, 5, 0).unwrap();
    assert_eq!(g, (11000, 5, 22000));
    let g2 = t.local_to_world_first(20, 0, 5, 0).unwrap();
    assert_eq!(g2, (10000, 5, 20000));
}

#[test]
fn duplicate_mapping_uses_the_first_row() {
    // Two rows for tile 10 with different translations: the one that
    // appears first in the source wins, deterministically.
    let t = WorldPositionTransformer::from_csv(b"10,99,1,1\n10,99,500,500\n").unwrap();
    let g = t.local_to_world_first(10, 0, 0, 0).unwrap();
    assert_eq!(g, (1000, 0, 1000));
    assert_eq!(t.anchor_count(), 2);
    assert_eq!(t.map_count(), 1);
}

#[test]
fn cyclic_table_fails_instead_of_looping() {
    let t = WorldPositionTransformer::from_csv(b"1,2,1,1\n2,1,1,1\n").unwrap();
    assert_eq!(t.local_to_world_first(1, 0, 0, 0), None);
    // A self-anchored tile is the smallest cycle.
    let t2 = WorldPositionTransformer::from_csv(b"5,5,1,1\n").unwrap();
    assert_eq!(t2.local_to_world_first(5, 0, 0, 0), None);
}

#[test]
fn csv_skips_blanks_and_comments_and_tolerates_crlf() {
    let text = b"# tile,anchor,dx,dz\n\n10,99,0.25,0.125\r\n\r\n";
    let t = WorldPositionTransformer::from_csv(text).unwrap();
    assert_eq!(t.anchor_count(), 1);
    let g = t.local_to_world_first(10, 0, 0, 0).unwrap();
    assert_eq!(g, (250, 0, 125));
}

#[test]
fn csv_refuses_malformed_lines() {
    assert!(matches!(
        WorldPositionTransformer::from_csv(b"10,99,1"),
        Err(AnchorTableError::BadLine(1))
    ));
    assert!(matches!(
        WorldPositionTransformer::from_csv(b"10,99,1,2\nx,99,1,2\n"),
        Err(AnchorTableError::BadLine(2))
    ));
    assert!(matches!(
        WorldPositionTransformer::from_csv(b"10,99,1,2,3\n"),
        Err(AnchorTableError::BadLine(1))
    ));
    assert!(matches!(
        WorldPositionTransformer::from_csv(b"10,99,1.2345,0\n"),
        Err(AnchorTableError::BadLine(1))
    ));
    assert!(matches!(
        WorldPositionTransformer::from_csv(b"10,99,,0\n"),
        Err(AnchorTableError::BadLine(1))
    ));
}

#[test]
fn csv_rejects_oversized_translations() {
    // 3000000 units = 3000000000 thousandths, over the table limit.
    assert!(WorldPositionTransformer::from_csv(b"10,99,3000000,0\n").is_err());
    // The limit itself is accepted.
    let t = WorldPositionTransformer::from_csv(b"10,99,-2147483.648,0\n").unwrap();
    let g = t.local_to_world_first(10, 0, 0, 0).unwrap();
    assert_eq!(g.0, -2147483648);
}

#[test]
fn csv_rejects_a_table_over_the_row_limit() {
    let mut text = String::new();
    for _ in 0..65537 {
        text.push_str("10,99,1,1\n");
    }
    assert!(matches!(
        WorldPositionTransformer::from_csv(text.as_bytes()),
        Err(AnchorTableError::TooManyRows)
    ));
}

#[test]
fn from_rows_checks_the_limits() {
    let rows = vec![MapAnchorRow { map_id: 1, anchor_id: 2, dx: 5, dz: -5 }];
    let t = WorldPositionTransformer::from_rows(rows).unwrap();
    assert_eq!(t.anchor_count(), 1);
    let bad = vec![MapAnchorRow { map_id: 1, anchor_id: 2, dx: i64::MAX, dz: 0 }];
    assert!(WorldPositionTransformer::from_rows(bad).is_none());
}

#[test]
fn format_map_id_renders_four_fields() {
    assert_eq!(format_map_id(0x3C2A2400), "m60_42_36_00");
    assert_eq!(format_map_id(0), "m00_00_00_00");
    assert_eq!(format_map_id(0xFFFFFFFF), "m255_255_255_255");
    assert_eq!(format_map_id(0x0102030A), "m01_02_03_10");
}
