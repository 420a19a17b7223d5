use mines6d::board::Board;
use mines6d::boardview::BoardView;
use mines6d::options::{Config, Options};
use mines6d::tileset::Tileset;

#[test]
fn test_format_cell_ascii() {
    assert_eq!(Tileset::format_cell_ascii(0x0000), "#");
    assert_eq!(Tileset::format_cell_ascii(0x4001), "X");
    assert_eq!(Tileset::format_cell_ascii(0x8000), "?");
    assert_eq!(Tileset::format_cell_ascii(0xc000), ".");
    assert_eq!(Tileset::format_cell_ascii(0xc005), "5");
    assert_eq!(Tileset::format_cell_ascii(0xc00a), "A");
    assert_eq!(Tileset::format_cell_ascii(0xc00f), "F");
    assert_eq!(Tileset::format_cell_ascii(0xc010), "+");
    assert_eq!(Tileset::format_cell_ascii(0xe001), "*");
}

#[test]
fn test_format_cell_unicode() {
    assert_eq!(Tileset::format_cell_unicode(0x0000), "▮");
    assert_eq!(Tileset::format_cell_unicode(0x4001), "⚑");
    assert_eq!(Tileset::format_cell_unicode(0x8000), "?");
    assert_eq!(Tileset::format_cell_unicode(0xc000), "·");
    assert_eq!(Tileset::format_cell_unicode(0xc00c), "C");
    assert_eq!(Tileset::format_cell_unicode(0xc010), "+");
    assert_eq!(Tileset::format_cell_unicode(0xe001), "*");
}

#[test]
fn test_tileset_new() {
    let t = Tileset::new(true, false);
    assert!(t.use_color);
    assert!(!t.use_unicode);
}

#[test]
fn test_options_new() {
    let o = Options::new();
    assert!(o.history_path.is_none());
    assert!(o.config_path.is_none());
    assert!(o.config.is_none());
}

#[test]
fn test_config_default() {
    let c = Config::default();
    assert_eq!(c.cells_h_space, 2);
    assert!(c.use_unicode);
    assert!(c.use_color);
}

#[test]
fn test_boardview_new_defaults() {
    let bv = BoardView::new((1, 1, 1, 1, 2, 2), 1, 3, Options::new());
    assert!(bv.tileset.use_color);
    assert!(bv.tileset.use_unicode);
    assert_eq!(bv.h_space, 2);
    assert_eq!(bv.board.mines_total, 1);
    assert_eq!(bv.board.cheats_remaining, 3);
    assert_eq!(bv.current_pos, (0, 0));
    assert_eq!(bv.current_view, (0, 0, 0, 0));
}

#[test]
fn test_boardview_new_from_config() {
    let mut o = Options::new();
    o.config = Some(Config { cells_h_space: 4, use_unicode: false, use_color: false });
    let bv = BoardView::new((1, 1, 1, 1, 2, 2), 1, 0, o);
    assert!(!bv.tileset.use_color);
    assert!(!bv.tileset.use_unicode);
    assert_eq!(bv.h_space, 4);
}

#[test]
fn test_format_pos_and_size_strings() {
    let mut bv = BoardView::new((1, 1, 1, 1, 2, 3), 0, 0, Options::new());
    assert_eq!(bv.format_pos_string(), "Position (0, 0, 0, 0, 0, 0)");
    assert_eq!(bv.format_size_string(), "Size     (3, 2, 1, 1, 1, 1)");
    bv.change_pos((0, 0, 0, 0, 1, 2));
    assert_eq!(bv.format_pos_string(), "Position (2, 1, 0, 0, 0, 0)");
}

#[test]
fn test_change_pos_clamps() {
    let mut bv = BoardView::new((1, 1, 1, 1, 2, 3), 0, 0, Options::new());
    bv.change_pos((0, 0, 0, 0, -1, -1));
    assert_eq!(bv.current_pos, (0, 0));
    bv.change_pos((0, 0, 0, 0, 5, 5));
    assert_eq!(bv.current_pos, (1, 2));
    bv.change_pos((1, 1, 1, 1, 0, -1));
    assert_eq!(bv.current_view, (0, 0, 0, 0));
    assert_eq!(bv.current_pos, (1, 1));
}

#[test]
fn test_add_checked() {
    assert_eq!(BoardView::add_checked(5, -3, 0, 9), 2);
    assert_eq!(BoardView::add_checked(0, -1, 0, 9), 0);
    assert_eq!(BoardView::add_checked(9, 3, 0, 9), 9);
    assert_eq!(BoardView::add_checked(2, -5, 1, 9), 1);
    assert_eq!(BoardView::add_checked(3, 2, 0, 9), 5);
    assert_eq!(BoardView::add_checked(7, -128, 0, 9), 0);
    assert_eq!(BoardView::add_checked(7, 127, 0, 200), 134);
}

#[test]
fn test_format_result_line() {
    let mines = vec![(0, 0, 0, 0, 0, 0)];
    let board = Board::with_mines((1, 1, 1, 1, 2, 3), &mines, 4);
    let mut bv = BoardView::new((1, 1, 1, 1, 2, 3), 0, 0, Options::new());
    bv.board = board;
    assert_eq!(
        bv.format_result_line("won"),
        "{\"result\": \"won\", \"mines\": 1, \"cheats\": 4, \"size\": [3, 2, 1, 1, 1, 1]}\n"
    );
}
