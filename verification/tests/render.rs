use e_agent::component::ComponentId;
use e_agent::render::{Damage, InvalidationReason, Rect, RenderScheduler, SemanticFrame, Size, Style};

#[test]
fn scheduler_coalesces_damage() {
    let mut scheduler = RenderScheduler::default();
    scheduler.request(Damage::Components);
    scheduler.request(Damage::Full);
    assert_eq!(scheduler.take(), Damage::Full);
    assert_eq!(scheduler.take(), Damage::Clean);
}

#[test]
fn semantic_frame_clips_and_accounts_for_cjk_width() {
    let mut frame = SemanticFrame::new(Size { width: 4, height: 1 });
    let clip = Rect { x: 1, y: 0, width: 2, height: 1 };
    frame.put(clip, 1, 0, '你', Style::default());
    frame.put(clip, 3, 0, 'x', Style::default());
    assert_eq!(frame.cells[1].symbol, "你");
    assert_eq!(frame.cells[2].symbol, "");
    assert_eq!(frame.cells[3].symbol, "");
}

#[test]
fn invalidating_a_component_requests_component_damage() {
    let mut scheduler = RenderScheduler::default();
    assert!(!scheduler.has_damage());
    scheduler.invalidate(ComponentId(3), InvalidationReason::State);
    assert!(scheduler.has_damage());
    assert_eq!(scheduler.take(), Damage::Components);
    assert!(!scheduler.has_damage());
}

#[test]
fn wide_glyph_that_does_not_fit_is_dropped() {
    let mut frame = SemanticFrame::new(Size { width: 3, height: 2 });
    let all = Rect { x: 0, y: 0, width: 3, height: 2 };
    frame.put(all, 2, 1, '你', Style::default());
    assert_eq!(frame.cells[5].symbol, "");
    frame.put(all, 1, 1, '你', Style::default());
    assert_eq!(frame.cells[4].symbol, "你");
    assert_eq!(frame.cells[5].symbol, "");
    frame.put(all, 0, 0, '\u{7}', Style::default());
    assert_eq!(frame.cells[0].symbol, "");
    frame.put(all, 0, 0, 'z', Style::default());
    assert_eq!(frame.cells[0].symbol, "z");
    assert_eq!(frame.cells.len(), 6);
}

#[test]
fn rect_contains_its_inside_only() {
    let r = Rect { x: 2, y: 3, width: 2, height: 1 };
    assert!(r.contains(2, 3));
    assert!(r.contains(3, 3));
    assert!(!r.contains(4, 3));
    assert!(!r.contains(2, 4));
    assert!(!r.contains(1, 3));
}
