use e_agent::component::{ComponentId, FocusManager};

#[test]
fn removing_focus_restores_previous_mounted_component() {
    let mut focus = FocusManager::default();
    focus.mount(ComponentId(1));
    focus.mount(ComponentId(2));
    assert!(focus.focus(ComponentId(1)));
    assert!(focus.focus(ComponentId(2)));
    focus.remove(ComponentId(2));
    assert_eq!(focus.focused(), Some(ComponentId(1)));
    assert!(!focus.focus(ComponentId(3)));
}

#[test]
fn removing_skips_unmounted_history_entries() {
    let mut focus = FocusManager::default();
    focus.mount(ComponentId(1));
    focus.mount(ComponentId(2));
    focus.mount(ComponentId(3));
    assert!(focus.focus(ComponentId(1)));
    assert!(focus.focus(ComponentId(2)));
    assert!(focus.focus(ComponentId(3)));
    focus.remove(ComponentId(2));
    assert_eq!(focus.focused(), Some(ComponentId(3)));
    focus.remove(ComponentId(3));
    assert_eq!(focus.focused(), Some(ComponentId(1)));
    focus.remove(ComponentId(1));
    assert_eq!(focus.focused(), None);
}
