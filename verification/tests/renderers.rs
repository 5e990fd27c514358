use e_agent::component::{ComponentId, CursorAnchor};
use e_agent::render::Size;
use e_agent::renderers::PiCachedFrame;

#[test]
fn cached_frame_preserves_style_link_cjk_and_cursor() {
    let cached = PiCachedFrame::from_ansi_lines(
        ComponentId(7),
        &["\x1b[1;3;4;38;2;1;2;3m你\x1b]8;;https://e.example\x07a\x1b]8;;\x07\x1b_pi:c\x07"],
        4,
    );
    assert_eq!(cached.frame.size, Size { width: 4, height: 1 });
    assert_eq!(cached.frame.cells[0].symbol, "你");
    assert_eq!(cached.frame.cells[0].style.foreground, Some(0x010203));
    assert!(cached.frame.cells[0].style.bold);
    assert!(cached.frame.cells[0].style.italic);
    assert!(cached.frame.cells[0].style.underline);
    assert_eq!(cached.frame.cells[2].symbol, "a");
    assert_eq!(cached.frame.cells[2].hyperlink.as_deref(), Some("https://e.example"));
    assert_eq!(
        cached.cursor,
        Some(CursorAnchor { component: ComponentId(7), x: 3, y: 0, visible: true, ime: true })
    );
}

#[test]
fn each_line_fills_its_own_row_and_the_last_marker_wins() {
    let cached = PiCachedFrame::from_ansi_lines(
        ComponentId(1),
        &["ab\x1b_pi:c\x07", "c\x1b_pi:c\x07"],
        3,
    );
    assert_eq!(cached.frame.size, Size { width: 3, height: 2 });
    assert_eq!(cached.frame.cells[0].symbol, "a");
    assert_eq!(cached.frame.cells[1].symbol, "b");
    assert_eq!(cached.frame.cells[3].symbol, "c");
    assert_eq!(cached.frame.cells[4].symbol, "");
    assert_eq!(
        cached.cursor,
        Some(CursorAnchor { component: ComponentId(1), x: 1, y: 1, visible: true, ime: true })
    );
}
