use stock_widget::config::AppConfig;
use stock_widget::widget::{
    clamp_opacity, content_height, context_menu, decode_command, decode_point, input_dialog_origin,
    opacity_dialog_origin, opacity_label, opacity_percent, quote_color, rgb, slider_opacity,
    MenuCommand, MenuEntry, MouseAction, OpacityDialog, OpacityDialogAction, OpacityDialogEvent,
    Rect, WidgetState,
};

#[test]
fn rgb_packs_red_low() {
    assert_eq!(rgb(230, 70, 70), 0x004646E6);
    assert_eq!(rgb(1, 2, 3), 0x00030201);
    assert_eq!(rgb(255, 255, 255), 0x00FFFFFF);
}

#[test]
fn rises_are_red_falls_green() {
    assert_eq!(quote_color(true), rgb(230, 70, 70));
    assert_eq!(quote_color(false), rgb(50, 180, 90));
}

#[test]
fn opacity_is_clamped() {
    assert_eq!(clamp_opacity(0), 26);
    assert_eq!(clamp_opacity(25), 26);
    assert_eq!(clamp_opacity(26), 26);
    assert_eq!(clamp_opacity(209), 209);
    assert_eq!(slider_opacity(300), 44);
    assert_eq!(slider_opacity(10), 26);
    assert_eq!(slider_opacity(255), 255);
}

#[test]
fn opacity_percent_rounds() {
    assert_eq!(opacity_percent(209), 82);
    assert_eq!(opacity_percent(255), 100);
    assert_eq!(opacity_percent(26), 10);
    assert_eq!(opacity_percent(0), 0);
    assert_eq!(opacity_label(209), "透明度: 82%");
    assert_eq!(opacity_label(255), "透明度: 100%");
}

#[test]
fn height_follows_rows() {
    assert_eq!(content_height(0), 40);
    assert_eq!(content_height(1), 38);
    assert_eq!(content_height(5), 142);
}

#[test]
fn points_are_signed_words() {
    assert_eq!(decode_point(0x0014_000A), (10, 20));
    assert_eq!(decode_point(0xFFFF_FFFEu32 as isize), (-2, -1));
}

#[test]
fn commands_decode() {
    assert_eq!(decode_command(1000), MenuCommand::AddStock);
    assert_eq!(decode_command(1002), MenuCommand::RefreshNow);
    assert_eq!(decode_command(1003), MenuCommand::Exit);
    assert_eq!(decode_command(1004), MenuCommand::AdjustOpacity);
    assert_eq!(decode_command(2000), MenuCommand::RemoveStock(0));
    assert_eq!(decode_command(2003), MenuCommand::RemoveStock(3));
    assert_eq!(decode_command(1001), MenuCommand::Ignore);
    assert_eq!(decode_command(0), MenuCommand::Ignore);
}

#[test]
fn menu_lists_delete_entries() {
    let syms = vec!["AAPL".to_string(), "600519".to_string()];
    let m = context_menu(&syms);
    assert_eq!(m.len(), 9);
    let items: Vec<(usize, String)> = m
        .iter()
        .filter_map(|e| match e {
            MenuEntry::Item { id, label } => Some((*id, label.clone())),
            MenuEntry::Separator => None,
        })
        .collect();
    assert_eq!(items[0], (1000, "添加股票/ETF...  (Add)".to_string()));
    assert_eq!(items[1], (1002, "立即刷新  (Refresh)".to_string()));
    assert_eq!(items[2], (2000, "删除 AAPL  (1)".to_string()));
    assert_eq!(items[3], (2001, "删除 600519  (2)".to_string()));
    assert_eq!(items[4], (1004, "透明度调节  (Opacity)".to_string()));
    assert_eq!(items[5], (1003, "退出  (Exit)".to_string()));
    for (id, _) in &items {
        assert_ne!(decode_command(*id), MenuCommand::Ignore);
    }
    assert_eq!(context_menu(&Vec::new()).len(), 6);
}

#[test]
fn dialogs_are_centered() {
    let owner = Rect { left: 100, top: 100, right: 440, bottom: 220 };
    assert_eq!(input_dialog_origin(owner), (110, 85));
    let small = Rect { left: 0, top: 0, right: 100, bottom: 50 };
    assert_eq!(input_dialog_origin(small), (0, 0));
    let dlg = Rect { left: 0, top: 0, right: 340, bottom: 140 };
    assert_eq!(opacity_dialog_origin(owner, dlg), (100, 90));
    let odd = Rect { left: -11, top: 0, right: 0, bottom: 0 };
    assert_eq!(input_dialog_origin(Rect { left: 0, top: 0, right: 319, bottom: 149 }), (0, 0));
    assert_eq!(opacity_dialog_origin(odd, Rect { left: 0, top: 0, right: 3, bottom: 3 }), (0, 0));
}

fn state() -> WidgetState {
    let mut c = AppConfig::default();
    c.opacity = 5;
    WidgetState::new(c)
}

#[test]
fn new_state_clamps_opacity() {
    let s = state();
    assert_eq!(s.opacity, 26);
    assert_eq!(s.config.opacity, 26);
    assert_eq!(s.width, 340);
    assert_eq!(s.height, 100);
    assert!(!s.is_dragging && !s.is_resizing);
}

#[test]
fn press_near_right_edge_resizes() {
    let mut s = state();
    s.on_left_down(335, 5);
    assert!(s.is_resizing);
    let r = Rect { left: 10, top: 20, right: 350, bottom: 120 };
    assert_eq!(
        s.on_mouse_move(true, 345, 5, r),
        MouseAction::Resize { x: 10, y: 20, width: 350, height: 100 }
    );
    assert_eq!(s.width, 350);
    assert_eq!(
        s.on_mouse_move(true, 0, 5, r),
        MouseAction::Resize { x: 10, y: 20, width: 280, height: 100 }
    );
    assert!(s.on_left_up());
    assert!(!s.is_resizing);
    assert!(!s.on_left_up());
}

#[test]
fn press_elsewhere_moves() {
    let mut s = state();
    s.on_left_down(50, 10);
    assert!(s.is_dragging);
    let r = Rect { left: 100, top: 100, right: 440, bottom: 200 };
    assert_eq!(s.on_mouse_move(true, 60, 5, r), MouseAction::Move { x: 110, y: 95 });
    assert_eq!(s.on_mouse_move(false, 335, 5, r), MouseAction::ResizeCursor);
    assert!(!s.is_dragging);
    assert_eq!(s.on_mouse_move(false, 10, 5, r), MouseAction::Nothing);
    s.store_window_rect(r);
    assert_eq!((s.config.window.x, s.config.window.width, s.config.window.height), (100, 340, 100));
}

#[test]
fn commands_change_config() {
    let mut s = state();
    assert!(!s.add_stock(""));
    assert!(s.add_stock(" nvda"));
    assert_eq!(s.config.symbols[5], "NVDA");
    assert!(s.remove_stock_at(0));
    assert_eq!(s.config.symbols[0], "GOOGL");
    assert!(!s.remove_stock_at(9));
    assert_eq!(s.apply_opacity(3), 26);
    assert_eq!(s.apply_opacity(200), 200);
    assert_eq!(s.config.opacity, 200);
    assert_eq!(s.dialog_opacity(), 200);
}

#[test]
fn quotes_set_height_and_names() {
    let mut s = state();
    let found = vec![("AAPL".to_string(), "Apple".to_string()), ("SPY".to_string(), "".to_string())];
    assert_eq!(s.apply_quotes(&found), 64);
    assert_eq!(s.height, 64);
    assert_eq!(s.config.names.len(), 1);
}

#[test]
fn opacity_dialog_events() {
    let mut d = OpacityDialog::new(10);
    assert_eq!(d.original, 26);
    match d.handle(OpacityDialogEvent::Slide(128)) {
        OpacityDialogAction::Preview { opacity, label } => {
            assert_eq!(opacity, 128);
            assert_eq!(label, "透明度: 50%");
        }
        _ => panic!("expected a preview"),
    }
    assert!(d.result.is_none());
    match d.handle(OpacityDialogEvent::Cancel) {
        OpacityDialogAction::Finish { restore } => assert_eq!(restore, Some(26)),
        _ => panic!("expected finish"),
    }
    match d.handle(OpacityDialogEvent::Confirm(12)) {
        OpacityDialogAction::Finish { restore } => assert_eq!(restore, None),
        _ => panic!("expected finish"),
    }
    assert_eq!(d.result, Some(26));
    match d.handle(OpacityDialogEvent::Close) {
        OpacityDialogAction::Finish { restore } => assert_eq!(restore, Some(26)),
        _ => panic!("expected finish"),
    }
}

#[test]
fn default_window_is_82_percent_opaque() {
    let s = WidgetState::new(AppConfig::default());
    assert_eq!(s.opacity, 209);
    assert_eq!(opacity_percent(s.opacity), 82);
    assert_eq!(s.width, 340);
}

#[test]
fn delete_entry_deletes_hand_edited_symbol() {
    let mut c = AppConfig::default();
    c.symbols = vec!["aapl".to_string(), "MSFT".to_string()];
    let mut s = WidgetState::new(c);
    s.on_left_down(10, 10);
    assert!(s.remove_stock_at(0));
    assert_eq!(s.config.symbols, vec!["MSFT".to_string()]);
    assert!(s.is_dragging);
    assert!(!s.is_resizing);
}

#[test]
fn menu_ids_are_distinct() {
    let syms: Vec<String> = (0..12).map(|i| format!("S{}", i)).collect();
    let mut ids: Vec<usize> = context_menu(&syms)
        .iter()
        .filter_map(|e| match e {
            MenuEntry::Item { id, .. } => Some(*id),
            MenuEntry::Separator => None,
        })
        .collect();
    let n = ids.len();
    ids.sort();
    ids.dedup();
    assert_eq!(ids.len(), n);
}

#[test]
fn storing_the_rect_keeps_pointer_state() {
    let mut s = state();
    s.on_left_down(50, 7);
    s.store_window_rect(Rect { left: 1, top: 2, right: 301, bottom: 102 });
    assert!(s.is_dragging);
    assert_eq!(s.drag_start, (50, 7));
    assert!(s.on_left_up());
    s.store_window_rect(Rect { left: 1, top: 2, right: 301, bottom: 102 });
    assert!(!s.is_dragging && !s.is_resizing);
    assert_eq!((s.config.window.width, s.config.window.height), (300, 100));
}
