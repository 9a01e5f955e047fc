use boxfish::coords::TileCoords;
use boxfish::gate::{LogiKind, LogiRegister};
use boxfish::stage::{
    chars_into_tiles, construct_stage_outline, interprint_each_char_as_tile,
    interprint_each_line_as_tile, LineContextContainer, StageError, Tile, TileKind,
};
use boxfish::stage_manager::{analyse_stage, parse_stage, StageManager};

fn c(x: i32, y: i32) -> TileCoords {
    TileCoords::from_ivec2(x, y)
}

#[test]
fn bits_take_the_operator_of_the_gate_before_them() {
    let line: Vec<char> = "A01A W".chars().collect();
    let tiles = interprint_each_line_as_tile(&line, 3).unwrap();
    let kinds: Vec<TileKind> = tiles.iter().map(|t| t.kind).collect();
    assert_eq!(
        kinds,
        vec![
            TileKind::Gate { logikind: LogiKind::And, is_head: false },
            TileKind::Bit { boolean: false, logikind: LogiKind::And },
            TileKind::Bit { boolean: true, logikind: LogiKind::And },
            TileKind::Gate { logikind: LogiKind::And, is_head: true },
            TileKind::Wall,
        ]
    );
    let xs: Vec<i32> = tiles.iter().map(|t| t.coords.x).collect();
    assert_eq!(xs, vec![0, 1, 2, 3, 5]);
    assert!(tiles.iter().all(|t| t.coords.y == 3));
}

#[test]
fn a_bit_before_any_gate_is_refused() {
    let line: Vec<char> = "W 1A".chars().collect();
    assert_eq!(
        interprint_each_line_as_tile(&line, 2),
        Err(StageError::BitWithoutGate { x: 2, y: 2 })
    );
    let mut st = LineContextContainer { bitkind: None, tail_found: false };
    assert_eq!(interprint_each_char_as_tile('0', &mut st), Err(()));
    assert_eq!(interprint_each_char_as_tile('?', &mut st), Ok(None));
    assert_eq!(
        interprint_each_char_as_tile('G', &mut st),
        Ok(Some(TileKind::Gate { logikind: LogiKind::Equal, is_head: false }))
    );
    assert_eq!(st, LineContextContainer { bitkind: Some(LogiKind::Equal), tail_found: true });
}

#[test]
fn rows_count_up_from_the_last_line() {
    let tiles = chars_into_tiles("W\nE\n").unwrap();
    assert_eq!(tiles[0], Tile { coords: c(0, 0), kind: TileKind::Goal });
    assert_eq!(tiles[1], Tile { coords: c(0, 1), kind: TileKind::Wall });
    // the frame of a 1 x 2 stage: 1 + 2 + 1 + 4 + 2 tiles
    assert_eq!(tiles.len(), 2 + 10);
    assert!(tiles[2..].iter().all(|t| t.kind == TileKind::Outline));
}

#[test]
fn stage_errors_name_the_cell() {
    assert_eq!(chars_into_tiles("A1A\n 0\n"), Err(StageError::BitWithoutGate { x: 1, y: 0 }));
    assert!(chars_into_tiles("").unwrap().len() == 4);
}

#[test]
fn outline_surrounds_the_stage() {
    let frame = construct_stage_outline((2, 1));
    let cells: Vec<TileCoords> = frame.iter().map(|t| t.coords).collect();
    assert_eq!(
        cells,
        vec![
            c(-1, 1),
            c(0, 1),
            c(0, -1),
            c(1, 1),
            c(1, -1),
            c(2, 1),
            c(-1, 0),
            c(2, 0),
            c(-1, -1),
            c(2, -1),
        ]
    );
}

#[test]
fn analysis_sorts_tiles_into_sets() {
    let tiles = chars_into_tiles("X10X E\r\nW").unwrap();
    let info = analyse_stage(&tiles);
    assert_eq!(
        info.gates,
        vec![
            LogiRegister { coords: c(1, 1), boolean: true, logikind: LogiKind::Xor },
            LogiRegister { coords: c(2, 1), boolean: false, logikind: LogiKind::Xor },
        ]
    );
    assert_eq!(info.goals, vec![c(5, 1)]);
    assert_eq!(info.semicollisions.cells(), &vec![c(0, 1), c(1, 1), c(2, 1), c(3, 1)]);
    assert!(info.collisions.contains(&c(0, 0)));
    // six columns wide: the carriage return is not part of the line
    assert!(info.collisions.contains(&c(6, 0)));
    assert!(!info.collisions.contains(&c(7, 0)));
    assert!(info.collisions.contains(&c(-1, 2)));
    let parsed = parse_stage("X10X E\r\nW").ok().unwrap();
    assert_eq!(parsed.gates, info.gates);
}

#[test]
fn stages_run_in_order_then_end() {
    let mut m = StageManager::setup_stage_manager(vec!["a".to_string(), "b".to_string()]);
    assert_eq!(m.new_game(), Some(&"a".to_string()));
    assert_eq!(m.call_next_aquarium(), Some(&"b".to_string()));
    assert_eq!(m.index, 1);
    assert_eq!(m.call_next_aquarium(), None);
    assert_eq!(m.index, 1);
    assert_eq!(m.new_game(), Some(&"a".to_string()));
    assert_eq!(m.index, 0);
    assert_eq!(m.current_stage(), Some(&"a".to_string()));
    let mut none = StageManager::setup_stage_manager(vec![]);
    assert_eq!(none.new_game(), None);
    assert_eq!(none.current_stage(), None);
}
