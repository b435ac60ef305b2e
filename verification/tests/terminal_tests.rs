use hayate_fileview::keys::Key;
use hayate_fileview::terminal_state::{Color16, TermToken, TerminalState};
use hayate_fileview::terminal_view::{brighten, cd_command, key_to_bytes};

/// Collects the tokens the escape-sequence tokenizer recognises.
struct Collector(Vec<TermToken>);

impl vte::Perform for Collector {
    fn print(&mut self, c: char) {
        self.0.push(TermToken::Print(c));
    }
    fn execute(&mut self, byte: u8) {
        self.0.push(TermToken::Control(byte));
    }
    fn csi_dispatch(&mut self, params: &vte::Params, _intermediates: &[u8], _ignore: bool, action: char) {
        let ps: Vec<Vec<u16>> = params.iter().map(|p| p.to_vec()).collect();
        self.0.push(TermToken::Csi(ps, action));
    }
}

fn feed(ts: &mut TerminalState, data: &[u8]) {
    let mut parser = vte::Parser::new();
    let mut tokens = Collector(Vec::new());
    parser.advance(&mut tokens, data);
    assert_eq!(ts.feed_tokens(&tokens.0), Ok(()));
}

#[test]
fn feed_hello() {
    let mut ts = TerminalState::new(80, 24);
    feed(&mut ts, b"hello");
    assert_eq!(ts.cell(0, 0).ch, 'h');
    assert_eq!(ts.cell(0, 1).ch, 'e');
    assert_eq!(ts.cell(0, 2).ch, 'l');
    assert_eq!(ts.cell(0, 3).ch, 'l');
    assert_eq!(ts.cell(0, 4).ch, 'o');
    assert_eq!(ts.cursor(), (0, 5));
}

#[test]
fn feed_newline() {
    let mut ts = TerminalState::new(80, 24);
    feed(&mut ts, b"a\r\nb");
    assert_eq!(ts.cell(0, 0).ch, 'a');
    assert_eq!(ts.cell(1, 0).ch, 'b');
    assert_eq!(ts.cursor(), (1, 1));
}

#[test]
fn feed_csi_cursor_move() {
    let mut ts = TerminalState::new(80, 24);
    // Move to row 3, col 5 (1-based): ESC [ 3 ; 5 H
    feed(&mut ts, b"\x1b[3;5H");
    assert_eq!(ts.cursor(), (2, 4)); // 0-based
    // CUU 1 (up)
    feed(&mut ts, b"\x1b[A");
    assert_eq!(ts.cursor(), (1, 4));
    // CUF 3 (right)
    feed(&mut ts, b"\x1b[3C");
    assert_eq!(ts.cursor(), (1, 7));
}

#[test]
fn feed_sgr_color() {
    let mut ts = TerminalState::new(80, 24);
    // ESC [ 1 ; 31 m (bold + red fg)
    feed(&mut ts, b"\x1b[1;31mX");
    let c = *ts.cell(0, 0);
    assert_eq!(c.ch, 'X');
    assert_eq!(c.fg, Color16::Red);
    assert!(c.bold);
    // ESC [ 0 m (reset)
    feed(&mut ts, b"\x1b[0mY");
    let c2 = *ts.cell(0, 1);
    assert_eq!(c2.fg, Color16::Default);
    assert!(!c2.bold);
}

#[test]
fn feed_clear_screen() {
    let mut ts = TerminalState::new(80, 24);
    feed(&mut ts, b"ABCDE");
    assert_eq!(ts.cell(0, 0).ch, 'A');
    // ESC [ 2 J — clear entire screen
    feed(&mut ts, b"\x1b[2J");
    assert_eq!(ts.cell(0, 0).ch, ' ');
    assert_eq!(ts.cell(0, 4).ch, ' ');
}

#[test]
fn scroll_on_lf_at_bottom() {
    let mut ts = TerminalState::new(80, 3);
    feed(&mut ts, b"AAA\r\nBBB\r\nCCC\r\nDDD");
    // After 4th line on a 3-row grid: first row scrolled out
    assert_eq!(ts.cell(0, 0).ch, 'B');
    assert_eq!(ts.cell(1, 0).ch, 'C');
    assert_eq!(ts.cell(2, 0).ch, 'D');
}

#[test]
fn tab_stop() {
    let mut ts = TerminalState::new(80, 24);
    feed(&mut ts, b"A\tB");
    assert_eq!(ts.cell(0, 0).ch, 'A');
    // TAB from col 1 → col 8
    assert_eq!(ts.cell(0, 8).ch, 'B');
}

#[test]
fn wrap_at_eol() {
    let mut ts = TerminalState::new(5, 3);
    feed(&mut ts, b"ABCDEFG");
    // 5-col grid: "ABCDE" on row 0, "FG" on row 1
    assert_eq!(ts.cell(0, 4).ch, 'E');
    assert_eq!(ts.cell(1, 0).ch, 'F');
    assert_eq!(ts.cell(1, 1).ch, 'G');
}

#[test]
fn key_to_bytes_enter() {
    assert_eq!(key_to_bytes(Key::Return, false, None), Some(b"\r".to_vec()));
}

#[test]
fn key_to_bytes_arrow() {
    assert_eq!(key_to_bytes(Key::Up, false, None), Some(b"\x1b[A".to_vec()));
}

#[test]
fn key_to_bytes_ctrl_c() {
    assert_eq!(key_to_bytes(Key::Letter('c'), true, Some("c")), Some(vec![0x03])); // ETX
}

#[test]
fn key_to_bytes_printable() {
    assert_eq!(key_to_bytes(Key::Letter('a'), false, Some("a")), Some(b"a".to_vec()));
}

#[test]
fn key_to_bytes_other_keys() {
    assert_eq!(key_to_bytes(Key::KpEnter, false, None), Some(b"\r".to_vec()));
    assert_eq!(key_to_bytes(Key::BackSpace, false, None), Some(vec![0x7f]));
    assert_eq!(key_to_bytes(Key::Delete, false, None), Some(b"\x1b[3~".to_vec()));
    assert_eq!(key_to_bytes(Key::PageDown, false, None), Some(b"\x1b[6~".to_vec()));
    assert_eq!(key_to_bytes(Key::Letter('Z'), true, Some("Z")), Some(vec![26]));
    assert_eq!(key_to_bytes(Key::Other, true, Some("é")), Some("é".as_bytes().to_vec()));
    assert_eq!(key_to_bytes(Key::Other, false, None), None);
}

#[test]
fn brighten_saturates() {
    assert_eq!(brighten((204, 51, 230)), (244, 91, 255));
    assert_eq!(brighten((255, 0, 215)), (255, 40, 255));
}

#[test]
fn cd_command_quotes_the_path() {
    assert_eq!(cd_command("/tmp"), "cd '/tmp'\n");
    assert_eq!(cd_command("/home/o'neil/x"), "cd '/home/o'\\''neil/x'\n");
}

#[test]
fn row_span_text_and_colours() {
    let mut ts = TerminalState::new(10, 2);
    feed(&mut ts, b"  \x1b[1;32mab\x1b[0m c");
    assert_eq!(ts.row_text(0), "  ab c    ");
    assert_eq!(ts.row_span(0), Some((2, 5)));
    assert_eq!(ts.row_span(1), None);
    let first = *ts.cell(0, 2);
    assert_eq!(hayate_fileview::terminal_view::text_color(&first), brighten(Color16::Green.to_rgb()));
    // The cursor sits after "c", on a blank cell.
    assert_eq!(ts.cursor(), (0, 6));
    assert_eq!(ts.cell_background(0, 6), Some((200, 200, 200)));
    assert_eq!(ts.cell_background(0, 0), None);
    assert_eq!(ts.cursor_glyph(), None);
}

#[test]
fn color16_palette() {
    assert_eq!(Color16::Default.to_rgb(), (204, 204, 204));
    assert_eq!(Color16::BrightWhite.to_rgb(), (238, 238, 236));
    assert_eq!(Color16::from_sgr_fg(31), Some(Color16::Red));
    assert_eq!(Color16::from_sgr_bg(104), Some(Color16::BrightBlue));
    assert_eq!(Color16::from_sgr_fg(38), None);
}

#[test]
fn resize_keeps_content_and_clamps_cursor() {
    let mut ts = TerminalState::new(10, 5);
    feed(&mut ts, b"\x1b[5;10HX");
    ts.resize(4, 2);
    assert_eq!(ts.grid_size(), (4, 2));
    assert_eq!(ts.cursor(), (1, 3));
    feed(&mut ts, b"\x1b[HQ");
    assert_eq!(ts.cell(0, 0).ch, 'Q');
}

#[test]
fn empty_grid_grows_on_resize() {
    let mut ts = TerminalState::new(0, 0);
    assert_eq!(ts.grid_size(), (0, 0));
    assert_eq!(ts.cursor(), (0, 0));
    assert!(ts.csi_allowed(&vec![vec![2]], 'J'));
    assert!(ts.csi_allowed(&vec![vec![0]], 'J'));
    assert!(!TerminalState::new(3, 0).csi_allowed(&vec![vec![1]], 'J'));
    assert!(!ts.csi_allowed(&vec![], 'B'));
    assert!(!ts.csi_allowed(&vec![vec![]], 'A'));
    assert!(ts.csi_allowed(&vec![vec![3]], 'A'));
    ts.csi_dispatch(&vec![vec![2]], &[], false, 'J');
    ts.execute(0x0D);
    ts.execute(0x09);
    assert_eq!(ts.cursor(), (0, 0));
    ts.resize(4, 2);
    assert_eq!(ts.grid_size(), (4, 2));
    feed(&mut ts, b"ab\r\ncd");
    assert_eq!(ts.cell(0, 1).ch, 'b');
    assert_eq!(ts.cell(1, 0).ch, 'c');
    assert_eq!(ts.cursor(), (1, 2));
    ts.resize(1, 1);
    assert_eq!(ts.cursor(), (0, 0));
    assert_eq!(ts.cell(0, 0).ch, 'a');
    let mut wide = TerminalState::new(5, 0);
    assert!(!wide.csi_allowed(&vec![vec![0]], 'K'));
    assert!(wide.csi_allowed(&vec![vec![3]], 'K'));
    wide.csi_dispatch(&vec![vec![3]], &[], false, 'K');
    assert_eq!(wide.grid_size(), (5, 0));
}

#[test]
fn feed_sgr_skips_extended_colours() {
    let mut ts = TerminalState::new(80, 24);
    feed(&mut ts, b"\x1b[38;5;31mX");
    let c = *ts.cell(0, 0);
    assert_eq!(c.ch, 'X');
    assert_eq!(c.fg, Color16::Default);
    assert!(!c.bold);
    feed(&mut ts, b"\x1b[48;2;1;2;3;32mY");
    let c = *ts.cell(0, 1);
    assert_eq!(c.bg, Color16::Default);
    assert_eq!(c.fg, Color16::Green);
    feed(&mut ts, b"\x1b[38;5mZ");
    assert_eq!(ts.cell(0, 2).fg, Color16::Green);
}

#[test]
fn feed_tokens_stops_where_the_grid_has_no_room() {
    let mut ts = TerminalState::new(0, 0);
    let toks = vec![TermToken::Control(b'\r'), TermToken::Print('a'), TermToken::Control(b'\r')];
    assert_eq!(ts.feed_tokens(&toks), Err(1));
    let mut ts = TerminalState::new(3, 2);
    let toks = vec![TermToken::Print('a'), TermToken::Control(b'\n'), TermToken::Csi(vec![vec![9], vec![9]], 'H')];
    assert_eq!(ts.feed_tokens(&toks), Ok(()));
    assert_eq!(ts.cursor(), (1, 2));
    assert_eq!(ts.grid_size(), (3, 2));
}
