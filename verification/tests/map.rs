use anthea::map::{check_stage, visited_cells, TileMap, TileType, MAPCOUNT, MAPWIDTH};
use anthea::rect::Rect;
use anthea::stage::{entry_for, Door, Room, Stage};

fn room(x1: i32, y1: i32, x2: i32, y2: i32) -> Room {
    Room {
        dimensions: Rect { x1, x2, y1, y2 },
        name: "A room".to_string(),
        description: "Nothing to see.".to_string(),
    }
}

fn stage(rooms: Vec<(&str, Room)>, doors: Vec<(&str, &str, usize)>) -> Stage {
    Stage {
        name: "test".to_string(),
        rooms: rooms.into_iter().map(|(k, r)| (k.to_string(), r)).collect(),
        start: "a".to_string(),
        doors: doors
            .into_iter()
            .map(|(a, b, w)| Door { room1: a.to_string(), room2: b.to_string(), width: w })
            .collect(),
        items: Vec::new(),
        weapons: Vec::new(),
        npcs: Vec::new(),
        affordances: Vec::new(),
        quests: Vec::new(),
        potions: Vec::new(),
        monsters: Vec::new(),
    }
}

fn floor(map: &TileMap, x: i32, y: i32) -> bool {
    map.tiles[(y * MAPWIDTH + x) as usize] == TileType::Floor
}

#[test]
fn new_map_carves_rooms_and_records_codes() {
    let st = stage(vec![("a", room(1, 1, 4, 3))], vec![]);
    assert!(check_stage(&st));
    let map = TileMap::new_map(&st);
    assert_eq!(map.tiles.len(), MAPCOUNT);
    assert_eq!(map.width, 50);
    assert_eq!(map.height, 50);
    // cells x in 2..=4, y in 2..=3
    assert!(floor(&map, 2, 2));
    assert!(floor(&map, 4, 3));
    assert!(!floor(&map, 1, 2));
    assert!(!floor(&map, 2, 1));
    assert!(!floor(&map, 5, 3));
    assert_eq!(map.tiles.iter().filter(|t| **t == TileType::Floor).count(), 6);
    assert_eq!(map.room_at(3, 2), Some(&"a".to_string()));
    assert_eq!(map.room_at(1, 1), None);
    assert!(map.revealed_tiles.iter().all(|b| !*b));
    assert!(!map.is_visible(3, 2));
}

#[test]
fn later_room_overrides_room_code() {
    let st = stage(vec![("a", room(1, 1, 4, 4)), ("b", room(3, 3, 6, 6))], vec![]);
    let map = TileMap::new_map(&st);
    assert_eq!(map.room_at(4, 4), Some(&"b".to_string()));
    assert_eq!(map.room_at(2, 2), Some(&"a".to_string()));
    assert_eq!(map.room_at(6, 6), Some(&"b".to_string()));
}

#[test]
fn horizontal_door_is_narrowed_around_the_middle() {
    // rooms side by side sharing rows 2..=9; a door of 2 rows.
    let st = stage(
        vec![("a", room(0, 1, 5, 9)), ("b", room(10, 1, 15, 9))],
        vec![("a", "b", 2)],
    );
    assert!(check_stage(&st));
    let map = TileMap::new_map(&st);
    // shared rows: 2..=9 (8 rows); cut 6: 3 from the top, 3 from the bottom -> rows 5, 6
    for x in 6..10 {
        assert!(!floor(&map, x, 4));
        assert!(floor(&map, x, 5));
        assert!(floor(&map, x, 6));
        assert!(!floor(&map, x, 7));
    }
}

#[test]
fn horizontal_door_odd_cut_drops_the_first_row_first() {
    // shared rows 2..=8 (7 rows), width 2: cut 5, 3 from the top, 2 from the bottom -> rows 5, 6
    let st = stage(
        vec![("a", room(0, 1, 5, 8)), ("b", room(10, 1, 15, 8))],
        vec![("a", "b", 2)],
    );
    let map = TileMap::new_map(&st);
    assert!(!floor(&map, 7, 4));
    assert!(floor(&map, 7, 5));
    assert!(floor(&map, 7, 6));
    assert!(!floor(&map, 7, 7));
}

#[test]
fn vertical_door_joins_rooms_above_each_other() {
    let st = stage(
        vec![("a", room(1, 0, 9, 5)), ("b", room(1, 20, 9, 25))],
        vec![("a", "b", 1)],
    );
    assert!(check_stage(&st));
    let map = TileMap::new_map(&st);
    // shared columns 2..=9 (8), width 1: cut 7 -> 4 from the left, 3 from the right: column 6
    for y in 6..20 {
        assert!(floor(&map, 6, y));
        assert!(!floor(&map, 5, y));
        assert!(!floor(&map, 7, y));
    }
    assert!(!floor(&map, 6, 25 + 1));
}

#[test]
fn add_door_carves_between_existing_rooms() {
    let st = stage(vec![("a", room(0, 1, 5, 4)), ("b", room(10, 1, 15, 4))], vec![]);
    let mut map = TileMap::new_map(&st);
    assert!(!floor(&map, 7, 3));
    map.add_door(&st, &"a".to_string(), &"b".to_string(), 1);
    // shared rows 2..=4, width 1: cut 2 -> 1 top, 1 bottom: row 3
    assert!(floor(&map, 7, 3));
    assert!(!floor(&map, 7, 2));
    assert!(!floor(&map, 7, 4));
}

#[test]
fn check_stage_refuses_bad_stages() {
    let missing = stage(vec![("a", room(0, 1, 5, 4))], vec![("a", "zz", 1)]);
    assert!(!check_stage(&missing));
    let twice = stage(vec![("a", room(0, 1, 5, 4)), ("a", room(7, 1, 9, 4))], vec![]);
    assert!(!check_stage(&twice));
    let outside = stage(vec![("a", room(0, 1, 5, 60))], vec![]);
    assert!(!check_stage(&outside));
    let negative = stage(vec![("a", room(-3, 1, 5, 4))], vec![]);
    assert!(!check_stage(&negative));
}

#[test]
fn stage_room_lookup() {
    let st = stage(vec![("a", room(0, 1, 5, 4)), ("b", room(7, 1, 9, 4))], vec![]);
    assert_eq!(st.room(&"b".to_string()).map(|r| r.dimensions.x1), Some(7));
    assert!(st.room(&"c".to_string()).is_none());
}

#[test]
fn movement_stops_at_walls() {
    let st = stage(vec![("a", room(1, 1, 4, 3))], vec![]);
    let map = TileMap::new_map(&st);
    assert_eq!(map.destination(2, 2, 1, 0), Some((3, 2)));
    assert_eq!(map.destination(2, 2, 0, -1), None);
    assert_eq!(map.destination(4, 3, 1, 0), None);
}

#[test]
fn grid_arithmetic() {
    let st = stage(vec![("a", room(1, 1, 4, 3))], vec![]);
    let map = TileMap::new_map(&st);
    assert_eq!(map.xy_idx(3, 2), 103);
    assert_eq!(map.point2d_to_index(3, 2), 103);
    assert_eq!(map.index_to_point2d(103), (3, 2));
    assert_eq!(map.index_to_point2d(-7), (-7, 0));
    assert!(map.in_bounds(1, 1));
    assert!(!map.in_bounds(0, 1));
    assert!(!map.in_bounds(49, 5));
    assert!(map.is_opaque(0));
    assert!(!map.is_opaque(103));
}

#[test]
fn visible_cells_are_replaced_and_stay_revealed() {
    let st = stage(vec![("a", room(1, 1, 4, 3))], vec![]);
    let mut map = TileMap::new_map(&st);
    map.show_visible(&vec![(2, 2), (3, 2), (-1, 4), (60, 1)]);
    assert!(map.is_visible(2, 2));
    assert!(map.is_visible(3, 2));
    assert_eq!(map.visible_tiles.iter().filter(|b| **b).count(), 2);
    assert_eq!(map.revealed_tiles.iter().filter(|b| **b).count(), 2);
    map.show_visible(&vec![(4, 3)]);
    assert!(!map.is_visible(2, 2));
    assert!(map.is_visible(4, 3));
    assert_eq!(map.visible_tiles.iter().filter(|b| **b).count(), 1);
    assert!(map.revealed_tiles[map.xy_idx(2, 2)]);
    assert_eq!(map.revealed_tiles.iter().filter(|b| **b).count(), 3);
}

#[test]
fn visited_cells_lists_marked_tiles_in_order() {
    assert_eq!(visited_cells(&vec![false, true, false, true, true]), vec![1, 3, 4]);
    assert!(visited_cells(&vec![false, false]).is_empty());
}

#[test]
fn fleeing_lands_on_a_visited_tile() {
    let st = stage(vec![("a", room(1, 1, 4, 3))], vec![]);
    let map = TileMap::new_map(&st);
    let mut visited = vec![false; MAPCOUNT];
    visited[map.xy_idx(3, 2)] = true;
    for _ in 0..20 {
        assert_eq!(map.flee_destination(&visited), (3, 2));
    }
    visited[map.xy_idx(7, 9)] = true;
    let mut seen = (false, false);
    for _ in 0..200 {
        let p = map.flee_destination(&visited);
        assert!(p == (3, 2) || p == (7, 9));
        if p == (3, 2) {
            seen.0 = true;
        } else {
            seen.1 = true;
        }
    }
    // the draw is random: both tiles come up
    assert!(seen.0 && seen.1);
    assert_eq!(map.flee_cell(&visited, 0), (3, 2));
    assert_eq!(map.flee_cell(&visited, 1), (7, 9));
}

#[test]
fn first_entry_for_a_key() {
    let entries = vec![(s("a"), 1), (s("b"), 2), (s("a"), 3)];
    assert_eq!(entry_for(&entries, &s("a")), Some(&1));
    assert_eq!(entry_for(&entries, &s("b")), Some(&2));
    assert_eq!(entry_for(&entries, &s("c")), None);
}

fn s(t: &str) -> String {
    t.to_string()
}

#[test]
fn rooms_without_cells_fit_anywhere() {
    let st = stage(vec![("a", room(1, 1, 4, 3)), ("empty", room(-7, -7, -9, 2))], vec![]);
    assert!(check_stage(&st));
    let map = TileMap::new_map(&st);
    assert_eq!(map.tiles.iter().filter(|t| **t == TileType::Floor).count(), 6);
    let flat = stage(vec![("a", room(-4, -4, 3, -4))], vec![]);
    assert!(check_stage(&flat));
}
