use game_of_life::cell::{Cell, Coordinates};
use game_of_life::codec::{decode_cells, decode_map, encode_map, CodecError};
use game_of_life::grid::Grid;
use game_of_life::patterns::Spaceship;

#[test]
fn encode_renders_tokens_and_separators() {
    let (mut map, _) = Grid::new(2, 2);
    Grid::set_clear_cell(&mut map, 0, 0);
    Grid::set_clear_cell(&mut map, 1, 1);
    let bytes = encode_map(&map);
    assert_eq!(bytes, b"[x][ ]\r\n[ ][x]".to_vec());
}

#[test]
fn encode_single_row_has_no_separator() {
    let (mut map, _) = Grid::new(1, 3);
    Grid::set_clear_cell(&mut map, 0, 1);
    let bytes = encode_map(&map);
    assert_eq!(bytes, b"[ ][x][ ]".to_vec());
}

#[test]
fn decode_reads_tokens_and_separators() {
    let bytes = b"[x][ ]\r\n[ ][x]".to_vec();
    let map = decode_map(&bytes).expect("well-formed input must decode");
    assert_eq!(Grid::dimensions(&map), (2, 2));
    assert_eq!(map[0][0], Cell::Alive);
    assert_eq!(map[0][1], Cell::Dead);
    assert_eq!(map[1][0], Cell::Dead);
    assert_eq!(map[1][1], Cell::Alive);
}

#[test]
fn round_trip_reproduces_the_grid() {
    let (mut map, _) = Grid::new(4, 6);
    let glider = Spaceship::glider(Coordinates::new(1, 2));
    Grid::generate_spaceship(&mut map, glider);

    let bytes = encode_map(&map);
    let back = decode_map(&bytes).expect("an encoded grid must decode");
    assert_eq!(back, map);
}

#[test]
fn round_trip_on_one_by_one_grids() {
    for alive in [false, true] {
        let (mut map, _) = Grid::new(1, 1);
        if alive {
            Grid::set_clear_cell(&mut map, 0, 0);
        }
        let bytes = encode_map(&map);
        let back = decode_map(&bytes).expect("an encoded grid must decode");
        assert_eq!(back, map);
    }
}

#[test]
fn decode_rejects_a_trailing_partial_token() {
    let bytes = b"[x][ ]\r\n[ ][x".to_vec();
    assert_eq!(decode_map(&bytes), Err(CodecError::MalformedEncoding));
    assert_eq!(decode_cells(&bytes), Err(CodecError::MalformedEncoding));
}

#[test]
fn decode_rejects_stray_bytes() {
    let bytes = b"a[x]".to_vec();
    assert_eq!(decode_cells(&bytes), Err(CodecError::MalformedEncoding));
    let bytes = b"[x] [x]".to_vec();
    assert_eq!(decode_cells(&bytes), Err(CodecError::MalformedEncoding));
    let bytes = b"[x]\n[x]".to_vec();
    assert_eq!(decode_cells(&bytes), Err(CodecError::MalformedEncoding));
}

#[test]
fn decode_rejects_unequal_row_lengths() {
    let bytes = b"[x]\r\n[x][x]".to_vec();
    // The stream itself is in the grammar...
    let rows = decode_cells(&bytes).expect("the token stream is well-formed");
    assert_eq!(rows.len(), 2);
    assert_eq!(rows[0].len(), 1);
    assert_eq!(rows[1].len(), 2);
    // ...but it is not a rectangular grid.
    assert_eq!(decode_map(&bytes), Err(CodecError::MalformedEncoding));
}

#[test]
fn decode_rejects_empty_input_as_a_grid() {
    let bytes = Vec::new();
    let rows = decode_cells(&bytes).expect("empty input is one empty row");
    assert_eq!(rows.len(), 1);
    assert_eq!(rows[0].len(), 0);
    assert_eq!(decode_map(&bytes), Err(CodecError::MalformedEncoding));
}

#[test]
fn decode_rejects_separator_only_input_as_a_grid() {
    let bytes = b"\r\n".to_vec();
    let rows = decode_cells(&bytes).expect("a lone separator is two empty rows");
    assert_eq!(rows.len(), 2);
    assert_eq!(decode_map(&bytes), Err(CodecError::MalformedEncoding));
}
