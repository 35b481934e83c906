use retris::block::Block;
use retris::game::Game;
use retris::tetromino::Tetromino;

fn i_block_at(y: i32, x: i32) -> Block {
    let mut b = Block::new();
    b.setid(1);
    b.row("..I.");
    b.row("..I.");
    b.row("..I.");
    b.row("..I.");
    b.setyx(y, x);
    b
}

#[test]
fn new_block_is_empty() {
    let b = Block::new();
    assert_eq!(b.data.len(), 16);
    assert!(b.data.iter().all(|c| *c == '.'));
    assert_eq!(b.id, 0);
    assert_eq!(b.index, 0);
    assert_eq!((b.y, b.x), (0, 0));
}

#[test]
fn row_builds_the_mask_row_by_row() {
    let mut b = Block::new();
    b.row(".XX.");
    assert_eq!(b.index, 1);
    let want: Vec<char> = ".XX.............".chars().collect();
    assert_eq!(b.data, want);
    b.row("X..X");
    let want: Vec<char> = ".XX.X..X........".chars().collect();
    assert_eq!(b.data, want);
}

#[test]
fn malformed_rows_are_ignored() {
    let mut b = Block::new();
    b.row("XXXXX");
    assert_eq!(b.index, 0);
    assert!(b.data.iter().all(|c| *c == '.'));
    b.row("XX");
    assert_eq!(b.index, 0);
    b.row("XXXX");
    b.row("XXXX");
    b.row("XXXX");
    b.row("XXXX");
    assert_eq!(b.index, 4);
    // a fifth row is ignored
    b.row("YYYY");
    assert_eq!(b.index, 4);
    assert!(b.data.iter().all(|c| *c == 'X'));
}

#[test]
fn setyx_moves_only_the_anchor() {
    let mut b = i_block_at(0, 0);
    let mask = b.data.clone();
    b.setyx(7, -3);
    assert_eq!((b.y, b.x), (7, -3));
    assert_eq!(b.data, mask);
}

#[test]
fn clone_copies_every_field() {
    let b = i_block_at(3, 4);
    let c = b.clone();
    assert_eq!(c.data, b.data);
    assert_eq!(c.id, b.id);
    assert_eq!(c.index, b.index);
    assert_eq!((c.y, c.x), (b.y, b.x));
}

#[test]
fn block_fits_respects_the_side_and_bottom_bounds() {
    let g = Game::new();
    let b = i_block_at(5, 5);
    // the I piece occupies column x + 2
    assert!(b.fits(&g, 5, 5));
    assert!(b.fits(&g, 5, -1));
    assert!(!b.fits(&g, 5, -2));
    assert!(b.fits(&g, 5, 10));
    assert!(!b.fits(&g, 5, 11));
    assert!(b.fits(&g, 17, 5));
    assert!(!b.fits(&g, 18, 5));
}

#[test]
fn block_fits_grants_the_staging_exemption() {
    let mut g = Game::new();
    for c in 0..24 {
        g.data[c] = 1;
    }
    let b = i_block_at(0, 0);
    // anchored above the field the piece overlaps no visible cell
    assert!(b.fits(&g, -4, 5));
    // entering the field it must collide with the filled top rows
    assert!(!b.fits(&g, -2, 5));
}

#[test]
fn block_fits_detects_collisions() {
    let mut g = Game::new();
    g.data[Game::index(8, 7) as usize] = 2;
    let b = i_block_at(5, 5);
    assert!(!b.fits(&g, 5, 5));
    assert!(b.fits(&g, 5, 6));
    assert!(b.fits(&g, 9, 5));
}

#[test]
fn rotating_four_times_restores_the_mask() {
    let g = Game::new();
    let mut b = i_block_at(5, 5);
    let original = b.data.clone();
    for _ in 0..4 {
        b.rotate(&g);
    }
    assert_eq!(b.data, original);
}

#[test]
fn one_rotation_turns_the_i_piece_flat() {
    let g = Game::new();
    let mut b = i_block_at(5, 5);
    b.rotate(&g);
    let want: Vec<char> = "....IIII........".chars().collect();
    assert_eq!(b.data, want);
}

#[test]
fn rotation_is_rejected_at_the_wall() {
    let g = Game::new();
    let mut b = i_block_at(5, 10);
    let original = b.data.clone();
    // flat the piece would span columns 10..13, beyond the field's width
    b.rotate(&g);
    assert_eq!(b.data, original);
}

#[test]
fn rotation_is_rejected_on_an_occupied_cell() {
    let mut g = Game::new();
    // the flat I piece would cover row 6, column 5
    g.data[Game::index(6, 5) as usize] = 3;
    let mut b = i_block_at(5, 5);
    let original = b.data.clone();
    b.rotate(&g);
    assert_eq!(b.data, original);
    // without the obstacle the same rotation is committed
    g.data[Game::index(6, 5) as usize] = 0;
    b.rotate(&g);
    assert_ne!(b.data, original);
}

#[test]
fn catalog_holds_the_seven_shapes() {
    let t = Tetromino::new();
    assert_eq!(t.data.len(), 7);
    for (k, b) in t.data.iter().enumerate() {
        assert_eq!(b.id as usize, k + 1);
        assert_eq!(b.data.len(), 16);
        assert!(b.data.iter().any(|c| *c != '.'));
        assert_eq!((b.y, b.x), (0, 0));
        assert_eq!(b.data.iter().filter(|c| **c != '.').count(), 4);
    }
    let i_mask: Vec<char> = "..I...I...I...I.".chars().collect();
    assert_eq!(t.data[0].data, i_mask);
    let o_mask: Vec<char> = ".....OO..OO.....".chars().collect();
    assert_eq!(t.data[3].data, o_mask);
}

#[test]
fn generator_yields_catalog_pieces_at_the_spawn_anchor() {
    let t = Tetromino::new();
    for _ in 0..100 {
        let b = t.next();
        assert!(1 <= b.id && b.id <= 7);
        assert_eq!((b.y, b.x), (-1, 5));
        let k = (b.id - 1) as usize;
        assert_eq!(b.data, t.data[k].data);
    }
}
