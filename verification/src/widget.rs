//! The widget's decisions: colors, opacity, layout, the context menu and its
//! commands, and what each mouse event does to the window.

use vstd::prelude::*;

use crate::config::{names_after, normalize_symbol, with_symbol, without_symbol, AppConfig, WindowState};
use crate::text::{decimal, push_decimal};

verus! {

/// The least opacity (out of 255) that the window may have.
pub const MIN_OPACITY: u8 = 26;

/// Space above the first quote row and below the last one.
pub const MARGIN_Y: i32 = 6;

/// The height of one quote row.
pub const ROW_HEIGHT: i32 = 26;

/// The narrowest the window can be resized to.
pub const MIN_WIDTH: i32 = 280;

/// How close to the right edge a press starts a resize rather than a move.
pub const RESIZE_EDGE: i32 = 8;

/// The width of the symbol input dialog.
pub const INPUT_DLG_WIDTH: i32 = 320;

/// The height of the symbol input dialog.
pub const INPUT_DLG_HEIGHT: i32 = 150;

/// The menu identifier of "add a symbol".
pub const IDM_ADD_STOCK: usize = 1000;

/// The menu identifier of "refresh now".
pub const IDM_REFRESH_NOW: usize = 1002;

/// The menu identifier of "exit".
pub const IDM_EXIT: usize = 1003;

/// The menu identifier of "adjust the opacity".
pub const IDM_ADJUST_OPACITY: usize = 1004;

/// The menu identifier of "delete the first symbol"; the next ones follow.
pub const IDM_REMOVE_STOCK_BASE: usize = 2000;

/// The Win32 `COLORREF` value of a color: red in the low byte, then green, then blue.
pub fn rgb(r: u8, g: u8, b: u8) -> (res: u32)
    ensures
        res == r as u32 + (g as u32) * 256 + (b as u32) * 65536,
{
    let res = (r as u32) | (g as u32) << 8 | (b as u32) << 16;
    assert(((r as u32) | (g as u32) << 8 | (b as u32) << 16) == r as u32 + (g as u32) * 256 + (
    b as u32) * 65536) by (bit_vector);
    res
}

/// The color of a quote row: red for a rise (or no change), green for a fall.
pub fn quote_color(is_up: bool) -> (res: u32)
    ensures
        is_up ==> res == 230 + 70 * 256 + 70 * 65536,
        !is_up ==> res == 50 + 180 * 256 + 90 * 65536,
{
    if is_up {
        rgb(230, 70, 70)
    } else {
        rgb(50, 180, 90)
    }
}

/// `opacity`, raised to `MIN_OPACITY` where it is below.
pub open spec fn clamp_opacity_spec(opacity: u8) -> u8 {
    if opacity < MIN_OPACITY {
        MIN_OPACITY
    } else {
        opacity
    }
}

/// Keeps the window from becoming (nearly) invisible.
pub fn clamp_opacity(opacity: u8) -> (res: u8)
    ensures
        res == clamp_opacity_spec(opacity),
        res >= MIN_OPACITY,
{
    if opacity < MIN_OPACITY {
        MIN_OPACITY
    } else {
        opacity
    }
}

/// The opacity shown to the user, in percent, rounded to the nearest.
pub open spec fn opacity_percent_spec(opacity: u8) -> u32 {
    ((opacity as u32 * 100 + 127) / 255) as u32
}

/// The opacity in percent, rounded to the nearest.
pub fn opacity_percent(opacity: u8) -> (res: u32)
    ensures
        res == opacity_percent_spec(opacity),
        res <= 100,
{
    (opacity as u32 * 100 + 127) / 255
}

/// The text beside the opacity slider.
pub open spec fn opacity_label_spec(opacity: u8) -> Seq<char> {
    "透明度: "@ + decimal(opacity_percent_spec(opacity) as nat) + "%"@
}

/// The text beside the opacity slider, e.g. `透明度: 82%`.
pub fn opacity_label(opacity: u8) -> (res: String)
    ensures
        res@ == opacity_label_spec(opacity),
{
    let mut res = "透明度: ".to_owned();
    let pct = opacity_percent(opacity);
    push_decimal(&mut res, pct as u64);
    res.append("%");
    res
}

/// The opacity that a slider position stands for: its low byte, clamped.
pub fn slider_opacity(pos: isize) -> (res: u8)
    ensures
        res == clamp_opacity_spec(pos as u8),
{
    clamp_opacity(pos as u8)
}

/// The window height for `count` quote rows (a bar of 40 for none).
pub open spec fn content_height_spec(count: usize) -> int {
    let c = count as i32;
    if c == 0 {
        40
    } else {
        MARGIN_Y * 2 + c * ROW_HEIGHT
    }
}

/// Whether the height for `count` rows fits in an `i32`.
pub open spec fn content_height_fits(count: usize) -> bool {
    let c = count as i32;
    c == 0 || (i32::MIN <= c * ROW_HEIGHT && MARGIN_Y * 2 + c * ROW_HEIGHT <= i32::MAX)
}

/// The window height for `count` quote rows.
pub fn content_height(count: usize) -> (res: i32)
    requires
        content_height_fits(count),
    ensures
        res == content_height_spec(count),
{
    let c = count as i32;
    if c == 0 {
        40
    } else {
        MARGIN_Y * 2 + c * ROW_HEIGHT
    }
}

/// A screen rectangle, as Win32 reports a window's.
#[derive(Debug, Clone, Copy, PartialEq, Eq, Structural)]
pub struct Rect {
    pub left: i32,
    pub top: i32,
    pub right: i32,
    pub bottom: i32,
}

/// The point packed in a mouse message's `lparam`: the low and the high
/// 16 bits of its low 32 bits, each read as a signed number.
pub fn decode_point(lparam: isize) -> (res: (i32, i32))
    ensures
        res.0 == (lparam as i32) as i16 as i32,
        res.1 == (((lparam as i32) >> 16u32) as i16) as i32,
        -32768 <= res.0 <= 32767,
        -32768 <= res.1 <= 32767,
{
    let x = (lparam as i32) as i16 as i32;
    let y = (((lparam as i32) >> 16u32) as i16) as i32;
    (x, y)
}

/// Where on the screen the context menu opens for a click at `(x, y)` in the window.
pub fn context_menu_point(window: Rect, x: i32, y: i32) -> (res: (i32, i32))
    requires
        window.left < i32::MAX,
        window.top < i32::MAX,
        i32::MIN <= window.left + 1 + x <= i32::MAX,
        i32::MIN <= window.top + 1 + y <= i32::MAX,
    ensures
        res.0 == window.left + 1 + x,
        res.1 == window.top + 1 + y,
{
    (window.left + 1 + x, window.top + 1 + y)
}

/// `a / 2` rounded toward zero, as Rust divides.
pub open spec fn half(a: int) -> int {
    if a >= 0 {
        a / 2
    } else {
        -((-a) / 2)
    }
}

/// `a`, or 0 where it is negative.
pub open spec fn at_least_zero(a: int) -> int {
    if a < 0 {
        0
    } else {
        a
    }
}

/// Where the symbol input dialog opens: centered on the window, kept off
/// negative coordinates.
pub fn input_dialog_origin(owner: Rect) -> (res: (i32, i32))
    requires
        i32::MIN <= owner.right - owner.left <= i32::MAX,
        i32::MIN <= owner.bottom - owner.top <= i32::MAX,
        i32::MIN <= owner.right - owner.left - INPUT_DLG_WIDTH <= i32::MAX,
        i32::MIN <= owner.bottom - owner.top - INPUT_DLG_HEIGHT <= i32::MAX,
        i32::MIN <= owner.left + half(owner.right - owner.left - INPUT_DLG_WIDTH) <= i32::MAX,
        i32::MIN <= owner.top + half(owner.bottom - owner.top - INPUT_DLG_HEIGHT) <= i32::MAX,
    ensures
        res.0 == at_least_zero(owner.left + half(owner.right - owner.left - INPUT_DLG_WIDTH)),
        res.1 == at_least_zero(owner.top + half(owner.bottom - owner.top - INPUT_DLG_HEIGHT)),
{
    let x = owner.left + (owner.right - owner.left - INPUT_DLG_WIDTH) / 2;
    let y = owner.top + (owner.bottom - owner.top - INPUT_DLG_HEIGHT) / 2;
    let x = if x < 0 { 0 } else { x };
    let y = if y < 0 { 0 } else { y };
    (x, y)
}

/// Where the opacity dialog moves to: centered on the window, kept off
/// negative coordinates; its own size is that of `dialog`.
pub fn opacity_dialog_origin(owner: Rect, dialog: Rect) -> (res: (i32, i32))
    requires
        i32::MIN <= dialog.right - dialog.left <= i32::MAX,
        i32::MIN <= dialog.bottom - dialog.top <= i32::MAX,
        i32::MIN <= owner.left + owner.right <= i32::MAX,
        i32::MIN <= owner.top + owner.bottom <= i32::MAX,
        i32::MIN <= half(owner.left + owner.right) - half(dialog.right - dialog.left) <= i32::MAX,
        i32::MIN <= half(owner.top + owner.bottom) - half(dialog.bottom - dialog.top) <= i32::MAX,
    ensures
        res.0 == at_least_zero(half(owner.left + owner.right) - half(dialog.right - dialog.left)),
        res.1 == at_least_zero(half(owner.top + owner.bottom) - half(dialog.bottom - dialog.top)),
{
    let w = dialog.right - dialog.left;
    let h = dialog.bottom - dialog.top;
    let x = (owner.left + owner.right) / 2 - w / 2;
    let y = (owner.top + owner.bottom) / 2 - h / 2;
    let x = if x < 0 { 0 } else { x };
    let y = if y < 0 { 0 } else { y };
    (x, y)
}

/// An entry of the context menu.
pub enum MenuEntry {
    Item { id: usize, label: String },
    Separator,
}

/// An entry of the context menu, its label as characters.
pub enum MenuEntrySpec {
    Item { id: int, label: Seq<char> },
    Separator,
}

impl View for MenuEntry {
    type V = MenuEntrySpec;

    open spec fn view(&self) -> MenuEntrySpec {
        match self {
            MenuEntry::Item { id, label } => MenuEntrySpec::Item { id: *id as int, label: label@ },
            MenuEntry::Separator => MenuEntrySpec::Separator,
        }
    }
}

/// The label of the entry that deletes the `i`-th symbol `sym` (counted from 0).
pub open spec fn remove_label(sym: Seq<char>, i: int) -> Seq<char> {
    "删除 "@ + sym + "  ("@ + decimal((i + 1) as nat) + ")"@
}

/// The context menu for the watched `syms`: add, refresh, one delete entry
/// per symbol (after a separator, where there is any), opacity, exit.
pub open spec fn context_menu_spec(syms: Seq<Seq<char>>) -> Seq<MenuEntrySpec> {
    let head = seq![
        MenuEntrySpec::Item { id: IDM_ADD_STOCK as int, label: "添加股票/ETF...  (Add)"@ },
        MenuEntrySpec::Item { id: IDM_REFRESH_NOW as int, label: "立即刷新  (Refresh)"@ },
    ];
    let removes = if syms.len() > 0 {
        seq![MenuEntrySpec::Separator] + Seq::new(
            syms.len(),
            |i: int|
                MenuEntrySpec::Item {
                    id: IDM_REMOVE_STOCK_BASE as int + i,
                    label: remove_label(syms[i], i),
                },
        )
    } else {
        Seq::<MenuEntrySpec>::empty()
    };
    let tail = seq![
        MenuEntrySpec::Separator,
        MenuEntrySpec::Item { id: IDM_ADJUST_OPACITY as int, label: "透明度调节  (Opacity)"@ },
        MenuEntrySpec::Separator,
        MenuEntrySpec::Item { id: IDM_EXIT as int, label: "退出  (Exit)"@ },
    ];
    head + removes + tail
}

/// The entries of the context menu for the watched `symbols`.
pub fn context_menu(symbols: &Vec<String>) -> (res: Vec<MenuEntry>)
    requires
        symbols.len() + IDM_REMOVE_STOCK_BASE <= usize::MAX,
    ensures
        res@.map_values(|e: MenuEntry| e@) == context_menu_spec(symbols@.map_values(|s: String| s@)),
{
    let ghost syms = symbols@.map_values(|s: String| s@);
    let mut res: Vec<MenuEntry> = Vec::new();
    res.push(MenuEntry::Item { id: IDM_ADD_STOCK, label: "添加股票/ETF...  (Add)".to_owned() });
    res.push(MenuEntry::Item { id: IDM_REFRESH_NOW, label: "立即刷新  (Refresh)".to_owned() });
    let ghost head = res@.map_values(|e: MenuEntry| e@);
    if symbols.len() > 0 {
        res.push(MenuEntry::Separator);
        let mut i: usize = 0;
        while i < symbols.len()
            invariant
                i <= symbols.len(),
                symbols.len() + IDM_REMOVE_STOCK_BASE <= usize::MAX,
                syms == symbols@.map_values(|s: String| s@),
                res@.map_values(|e: MenuEntry| e@) == head + seq![MenuEntrySpec::Separator]
                    + Seq::new(
                    i as nat,
                    |k: int|
                        MenuEntrySpec::Item {
                            id: IDM_REMOVE_STOCK_BASE as int + k,
                            label: remove_label(syms[k], k),
                        },
                ),
            decreases symbols.len() - i,
        {
            let mut label = "删除 ".to_owned();
            label.append(symbols[i].as_str());
            label.append("  (");
            push_decimal(&mut label, (i as u64) + 1);
            label.append(")");
            let ghost before = res@.map_values(|e: MenuEntry| e@);
            res.push(MenuEntry::Item { id: IDM_REMOVE_STOCK_BASE + i, label });
            assert(res@.map_values(|e: MenuEntry| e@) == before.push(
                MenuEntrySpec::Item {
                    id: IDM_REMOVE_STOCK_BASE as int + i,
                    label: remove_label(syms[i as int], i as int),
                },
            ));
            i += 1;
        }
    }
    let ghost removes = if syms.len() > 0 {
        seq![MenuEntrySpec::Separator] + Seq::new(
            syms.len(),
            |i: int|
                MenuEntrySpec::Item {
                    id: IDM_REMOVE_STOCK_BASE as int + i,
                    label: remove_label(syms[i], i),
                },
        )
    } else {
        Seq::<MenuEntrySpec>::empty()
    };
    assert(res@.map_values(|e: MenuEntry| e@) == head + removes);
    let ghost mid = res@;
    res.push(MenuEntry::Separator);
    res.push(MenuEntry::Item { id: IDM_ADJUST_OPACITY, label: "透明度调节  (Opacity)".to_owned() });
    res.push(MenuEntry::Separator);
    res.push(MenuEntry::Item { id: IDM_EXIT, label: "退出  (Exit)".to_owned() });
    let ghost tail = seq![
        MenuEntrySpec::Separator,
        MenuEntrySpec::Item { id: IDM_ADJUST_OPACITY as int, label: "透明度调节  (Opacity)"@ },
        MenuEntrySpec::Separator,
        MenuEntrySpec::Item { id: IDM_EXIT as int, label: "退出  (Exit)"@ },
    ];
    assert(res@.map_values(|e: MenuEntry| e@) == mid.map_values(|e: MenuEntry| e@) + tail);
    assert(res@.map_values(|e: MenuEntry| e@) == context_menu_spec(syms));
    res
}

/// What a menu command asks the widget to do.
#[derive(Debug, Clone, Copy, PartialEq, Eq, Structural)]
pub enum MenuCommand {
    AddStock,
    RefreshNow,
    /// Delete the symbol at this position of the list.
    RemoveStock(usize),
    AdjustOpacity,
    Exit,
    Ignore,
}

/// The command that the menu identifier `cmd` stands for.
pub open spec fn command_of(cmd: usize) -> MenuCommand {
    if cmd == IDM_ADD_STOCK {
        MenuCommand::AddStock
    } else if cmd == IDM_REFRESH_NOW {
        MenuCommand::RefreshNow
    } else if cmd >= IDM_REMOVE_STOCK_BASE {
        MenuCommand::RemoveStock((cmd - IDM_REMOVE_STOCK_BASE) as usize)
    } else if cmd == IDM_ADJUST_OPACITY {
        MenuCommand::AdjustOpacity
    } else if cmd == IDM_EXIT {
        MenuCommand::Exit
    } else {
        MenuCommand::Ignore
    }
}

/// Reads a menu command identifier.
pub fn decode_command(cmd: usize) -> (res: MenuCommand)
    ensures
        res == command_of(cmd),
{
    if cmd == IDM_ADD_STOCK {
        MenuCommand::AddStock
    } else if cmd == IDM_REFRESH_NOW {
        MenuCommand::RefreshNow
    } else if cmd >= IDM_REMOVE_STOCK_BASE {
        MenuCommand::RemoveStock(cmd - IDM_REMOVE_STOCK_BASE)
    } else if cmd == IDM_ADJUST_OPACITY {
        MenuCommand::AdjustOpacity
    } else if cmd == IDM_EXIT {
        MenuCommand::Exit
    } else {
        MenuCommand::Ignore
    }
}

/// Every entry of the context menu is a command the widget acts on, and the
/// delete entry of the `i`-th symbol deletes the `i`-th symbol and nothing else.
pub proof fn law_menu_commands(syms: Seq<Seq<char>>)
    requires
        syms.len() + IDM_REMOVE_STOCK_BASE <= usize::MAX,
    ensures
        forall|k: int|
            0 <= k < context_menu_spec(syms).len() ==> match #[trigger] context_menu_spec(syms)[k] {
                MenuEntrySpec::Item { id, label } => 0 <= id <= usize::MAX && command_of(id as usize)
                    != MenuCommand::Ignore,
                MenuEntrySpec::Separator => true,
            },
        forall|i: int|
            0 <= i < syms.len() ==> context_menu_spec(syms)[3 + i] == (MenuEntrySpec::Item {
                id: IDM_REMOVE_STOCK_BASE as int + i,
                label: remove_label(#[trigger] syms[i], i),
            }) && command_of((IDM_REMOVE_STOCK_BASE as int + i) as usize) == MenuCommand::RemoveStock(i as usize),
{
    let m = context_menu_spec(syms);
    assert forall|k: int| 0 <= k < m.len() implies match #[trigger] m[k] {
        MenuEntrySpec::Item { id, label } => 0 <= id <= usize::MAX && command_of(id as usize)
            != MenuCommand::Ignore,
        MenuEntrySpec::Separator => true,
    } by {
        if syms.len() > 0 && 3 <= k < 3 + syms.len() {
            assert(m[k] == MenuEntrySpec::Item {
                id: IDM_REMOVE_STOCK_BASE as int + (k - 3),
                label: remove_label(syms[k - 3], k - 3),
            });
        }
    }
}

/// The identifier of the entry at position `k` of the context menu for
/// `syms`, or -1 for a separator.
pub open spec fn menu_id_at(syms: Seq<Seq<char>>, k: int) -> int {
    let n = syms.len() as int;
    let t = if n > 0 { 3 + n } else { 2 };
    if k == 0 {
        IDM_ADD_STOCK as int
    } else if k == 1 {
        IDM_REFRESH_NOW as int
    } else if n > 0 && k == 2 {
        -1
    } else if n > 0 && 3 <= k < 3 + n {
        IDM_REMOVE_STOCK_BASE as int + (k - 3)
    } else if k == t + 1 {
        IDM_ADJUST_OPACITY as int
    } else if k == t + 3 {
        IDM_EXIT as int
    } else {
        -1
    }
}

/// No two entries of the context menu share an identifier.
pub proof fn law_menu_ids_distinct(syms: Seq<Seq<char>>)
    ensures
        forall|a: int, b: int|
            0 <= a < b < context_menu_spec(syms).len() ==> match (
                #[trigger] context_menu_spec(syms)[a],
                #[trigger] context_menu_spec(syms)[b],
            ) {
                (MenuEntrySpec::Item { id: x, .. }, MenuEntrySpec::Item { id: y, .. }) => x != y,
                _ => true,
            },
{
    let m = context_menu_spec(syms);
    let n = syms.len() as int;
    assert forall|k: int| 0 <= k < m.len() implies match #[trigger] m[k] {
        MenuEntrySpec::Item { id, .. } => id == menu_id_at(syms, k) && id >= 0,
        MenuEntrySpec::Separator => menu_id_at(syms, k) == -1,
    } by {
        if n > 0 && 3 <= k < 3 + n {
            assert(m[k] == MenuEntrySpec::Item {
                id: IDM_REMOVE_STOCK_BASE as int + (k - 3),
                label: remove_label(syms[k - 3], k - 3),
            });
        }
    }
}

/// What the window does after a mouse move.
#[derive(Debug, Clone, Copy, PartialEq, Eq, Structural)]
pub enum MouseAction {
    Nothing,
    /// Show the left-right resize cursor (the pointer is at the right edge).
    ResizeCursor,
    /// Give the window this place and size.
    Resize { x: i32, y: i32, width: i32, height: i32 },
    /// Move the window's top-left corner here, keeping its size.
    Move { x: i32, y: i32 },
}

/// The window's state apart from Win32 handles: the configuration, the
/// opacity, the size, and the state of a drag or resize with the left button.
pub struct WidgetState {
    pub config: AppConfig,
    pub opacity: u8,
    pub width: i32,
    pub height: i32,
    pub is_dragging: bool,
    pub is_resizing: bool,
    pub drag_start: (i32, i32),
    pub resize_start_x: i32,
    pub resize_start_width: i32,
}

impl WidgetState {
    /// The state of a drag or resize is the same in `self` and `other`.
    pub open spec fn same_pointer_state(&self, other: &WidgetState) -> bool {
        &&& self.is_dragging == other.is_dragging
        &&& self.is_resizing == other.is_resizing
        &&& self.drag_start == other.drag_start
        &&& self.resize_start_x == other.resize_start_x
        &&& self.resize_start_width == other.resize_start_width
    }

    /// The names are well formed and the opacity, never below the least,
    /// is the one the configuration keeps.
    pub open spec fn wf(&self) -> bool {
        &&& self.config.wf()
        &&& self.opacity >= MIN_OPACITY
        &&& self.config.opacity == self.opacity
    }

    /// The state for a new window: the configured opacity (clamped, and
    /// written back to the configuration), the configured width, a height of
    /// 100, and no drag or resize going on.
    pub fn new(config: AppConfig) -> (res: WidgetState)
        requires
            config.wf(),
        ensures
            res.wf(),
            res.opacity == clamp_opacity_spec(config.opacity),
            res.config.symbols == config.symbols,
            res.config.names@ == config.names@,
            res.config.window == config.window,
            res.width == config.window.width as i32,
            res.height == 100,
            !res.is_dragging,
            !res.is_resizing,
            res.drag_start == (0i32, 0i32),
            res.resize_start_x == 0,
            res.resize_start_width == config.window.width as i32,
    {
        let mut config = config;
        let opacity = clamp_opacity(config.opacity);
        config.opacity = opacity;
        let width = config.window.width as i32;
        WidgetState {
            config,
            opacity,
            width,
            height: 100,
            is_dragging: false,
            is_resizing: false,
            drag_start: (0, 0),
            resize_start_x: 0,
            resize_start_width: width,
        }
    }

    /// After fresh quotes: learns the names in `found` (symbol, name) and
    /// sets the height for one row per quote; gives the new height.
    pub fn apply_quotes(&mut self, found: &Vec<(String, String)>) -> (res: i32)
        requires
            old(self).wf(),
            content_height_fits(found.len()),
        ensures
            final(self).wf(),
            res == content_height_spec(found.len()),
            final(self).height == res,
            final(self).config.names@ == names_after(
                old(self).config.names@,
                found@.map_values(|p: (String, String)| (p.0@, p.1@)),
            ),
            final(self).config.symbols == old(self).config.symbols,
            final(self).config.window == old(self).config.window,
            final(self).opacity == old(self).opacity,
            final(self).width == old(self).width,
            final(self).same_pointer_state(&*old(self)),
    {
        self.config.record_names(found);
        let h = content_height(found.len());
        self.height = h;
        h
    }

    /// The text typed into the add dialog: where it is not empty the symbol
    /// is added; tells whether it was (the configuration then changed).
    pub fn add_stock(&mut self, text: &str) -> (res: bool)
        requires
            old(self).wf(),
        ensures
            final(self).wf(),
            res == (text@.len() > 0),
            res ==> final(self).config.symbols_view() == with_symbol(
                old(self).config.symbols_view(),
                normalize_symbol(text@),
            ),
            !res ==> final(self).config.symbols_view() == old(self).config.symbols_view(),
            final(self).config.names@ == old(self).config.names@,
            final(self).config.window == old(self).config.window,
            final(self).opacity == old(self).opacity,
            final(self).width == old(self).width,
            final(self).height == old(self).height,
            final(self).same_pointer_state(&*old(self)),
    {
        if text.is_empty() {
            return false;
        }
        self.config.add_symbol(text);
        true
    }

    /// The delete entry for position `idx`: where there is a stock listed
    /// there it is deleted (as `AppConfig::remove_symbol_at` does); tells
    /// whether there was one.
    pub fn remove_stock_at(&mut self, idx: usize) -> (res: bool)
        requires
            old(self).wf(),
        ensures
            final(self).wf(),
            res == (idx < old(self).config.symbols.len()),
            res ==> {
                let listed = old(self).config.symbols_view()[idx as int];
                &&& final(self).config.symbols_view() == without_symbol(
                    old(self).config.symbols_view(),
                    listed,
                )
                &&& final(self).config.names@ == old(self).config.names@.remove(
                    normalize_symbol(listed),
                )
            },
            !res ==> final(self).config.symbols_view() == old(self).config.symbols_view()
                && final(self).config.names@ == old(self).config.names@,
            final(self).config.window == old(self).config.window,
            final(self).opacity == old(self).opacity,
            final(self).width == old(self).width,
            final(self).height == old(self).height,
            final(self).same_pointer_state(&*old(self)),
    {
        self.config.remove_symbol_at(idx)
    }

    /// The opacity that the opacity dialog starts from.
    pub fn dialog_opacity(&self) -> (res: u8)
        ensures
            res == clamp_opacity_spec(self.opacity),
    {
        clamp_opacity(self.opacity)
    }

    /// Takes the opacity chosen in the dialog (clamped) for the window and
    /// the configuration; gives the opacity taken.
    pub fn apply_opacity(&mut self, chosen: u8) -> (res: u8)
        requires
            old(self).wf(),
        ensures
            final(self).wf(),
            res == clamp_opacity_spec(chosen),
            final(self).opacity == res,
            final(self).config.symbols == old(self).config.symbols,
            final(self).config.names@ == old(self).config.names@,
            final(self).config.window == old(self).config.window,
            final(self).width == old(self).width,
            final(self).height == old(self).height,
            final(self).same_pointer_state(&*old(self)),
    {
        let n = clamp_opacity(chosen);
        self.opacity = n;
        self.config.opacity = n;
        n
    }

    /// The left button goes down at `(x, y)`: within `RESIZE_EDGE` of the
    /// right edge a resize starts, elsewhere a move.
    pub fn on_left_down(&mut self, x: i32, y: i32)
        requires
            old(self).width >= i32::MIN + RESIZE_EDGE,
        ensures
            x >= old(self).width - RESIZE_EDGE ==> {
                &&& final(self).is_resizing
                &&& final(self).resize_start_x == x
                &&& final(self).resize_start_width == old(self).width
                &&& final(self).is_dragging == old(self).is_dragging
                &&& final(self).drag_start == old(self).drag_start
            },
            x < old(self).width - RESIZE_EDGE ==> {
                &&& final(self).is_dragging
                &&& final(self).drag_start == (x, y)
                &&& final(self).is_resizing == old(self).is_resizing
                &&& final(self).resize_start_x == old(self).resize_start_x
                &&& final(self).resize_start_width == old(self).resize_start_width
            },
            final(self).config == old(self).config,
            final(self).opacity == old(self).opacity,
            final(self).width == old(self).width,
            final(self).height == old(self).height,
    {
        if x >= self.width - RESIZE_EDGE {
            self.is_resizing = true;
            self.resize_start_x = x;
            self.resize_start_width = self.width;
        } else {
            self.is_dragging = true;
            self.drag_start = (x, y);
        }
    }

    /// The left button comes up: any move or resize ends; tells whether one
    /// was going on (the window's place is then saved).
    pub fn on_left_up(&mut self) -> (res: bool)
        ensures
            res == (old(self).is_dragging || old(self).is_resizing),
            !final(self).is_dragging,
            !final(self).is_resizing,
            final(self).config == old(self).config,
            final(self).opacity == old(self).opacity,
            final(self).width == old(self).width,
            final(self).height == old(self).height,
            final(self).drag_start == old(self).drag_start,
            final(self).resize_start_x == old(self).resize_start_x,
            final(self).resize_start_width == old(self).resize_start_width,
    {
        let was = self.is_dragging || self.is_resizing;
        self.is_dragging = false;
        self.is_resizing = false;
        was
    }

    /// Keeps the window's place and size `r` in the configuration.
    pub fn store_window_rect(&mut self, r: Rect)
        requires
            old(self).wf(),
            i32::MIN <= r.right - r.left <= i32::MAX,
            i32::MIN <= r.bottom - r.top <= i32::MAX,
        ensures
            final(self).wf(),
            final(self).config.window == (WindowState {
                x: r.left,
                y: r.top,
                width: (r.right - r.left) as i32 as u32,
                height: (r.bottom - r.top) as i32 as u32,
            }),
            final(self).config.symbols == old(self).config.symbols,
            final(self).config.names@ == old(self).config.names@,
            final(self).opacity == old(self).opacity,
            final(self).width == old(self).width,
            final(self).height == old(self).height,
            final(self).same_pointer_state(&*old(self)),
    {
        self.config.window = WindowState {
            x: r.left,
            y: r.top,
            width: (r.right - r.left) as u32,
            height: (r.bottom - r.top) as u32,
        };
    }

    /// Whether the arithmetic of `on_mouse_move` stays within `i32`.
    pub open spec fn mouse_move_fits(&self, left_held: bool, x: i32, y: i32, window: Rect) -> bool {
        if left_held {
            if self.is_resizing {
                &&& i32::MIN <= self.resize_start_width + x <= i32::MAX
                &&& i32::MIN <= self.resize_start_width + x - self.resize_start_x <= i32::MAX
                &&& i32::MIN <= window.bottom - window.top <= i32::MAX
            } else if self.is_dragging {
                &&& i32::MIN <= x - self.drag_start.0 <= i32::MAX
                &&& i32::MIN <= y - self.drag_start.1 <= i32::MAX
                &&& i32::MIN <= window.left + (x - self.drag_start.0) <= i32::MAX
                &&& i32::MIN <= window.top + (y - self.drag_start.1) <= i32::MAX
            } else {
                true
            }
        } else {
            self.width >= i32::MIN + RESIZE_EDGE
        }
    }

    /// The mouse moves to `(x, y)` in the window, whose place is `window`.
    /// With the left button held, a resize follows the pointer (never
    /// narrower than `MIN_WIDTH`) and a move keeps the pointer on the spot
    /// where it was pressed. Without it, any move or resize ends, and the
    /// resize cursor shows at the right edge.
    pub fn on_mouse_move(&mut self, left_held: bool, x: i32, y: i32, window: Rect) -> (res:
        MouseAction)
        requires
            old(self).mouse_move_fits(left_held, x, y, window),
        ensures
            left_held && old(self).is_resizing ==> {
                let w = old(self).resize_start_width + x - old(self).resize_start_x;
                let new_w = if w < MIN_WIDTH { MIN_WIDTH as int } else { w };
                &&& final(self).width == new_w
                &&& final(self).width >= MIN_WIDTH
                &&& res == MouseAction::Resize {
                    x: window.left,
                    y: window.top,
                    width: new_w as i32,
                    height: (window.bottom - window.top) as i32,
                }
            },
            left_held && !old(self).is_resizing && old(self).is_dragging ==> {
                &&& final(self).width == old(self).width
                &&& res == MouseAction::Move {
                    x: (window.left + (x - old(self).drag_start.0)) as i32,
                    y: (window.top + (y - old(self).drag_start.1)) as i32,
                }
            },
            left_held && !old(self).is_resizing && !old(self).is_dragging ==> {
                &&& final(self).width == old(self).width
                &&& res == MouseAction::Nothing
            },
            left_held ==> final(self).is_dragging == old(self).is_dragging
                && final(self).is_resizing == old(self).is_resizing,
            !left_held ==> {
                &&& !final(self).is_dragging
                &&& !final(self).is_resizing
                &&& final(self).width == old(self).width
                &&& res == (if x >= old(self).width - RESIZE_EDGE {
                    MouseAction::ResizeCursor
                } else {
                    MouseAction::Nothing
                })
            },
            final(self).config == old(self).config,
            final(self).opacity == old(self).opacity,
            final(self).height == old(self).height,
            final(self).drag_start == old(self).drag_start,
            final(self).resize_start_x == old(self).resize_start_x,
            final(self).resize_start_width == old(self).resize_start_width,
    {
        if left_held {
            if self.is_resizing {
                let w = self.resize_start_width + x - self.resize_start_x;
                let new_w = if w < MIN_WIDTH { MIN_WIDTH } else { w };
                self.width = new_w;
                MouseAction::Resize {
                    x: window.left,
                    y: window.top,
                    width: new_w,
                    height: window.bottom - window.top,
                }
            } else if self.is_dragging {
                let dx = x - self.drag_start.0;
                let dy = y - self.drag_start.1;
                MouseAction::Move { x: window.left + dx, y: window.top + dy }
            } else {
                MouseAction::Nothing
            }
        } else {
            self.is_dragging = false;
            self.is_resizing = false;
            if x >= self.width - RESIZE_EDGE {
                MouseAction::ResizeCursor
            } else {
                MouseAction::Nothing
            }
        }
    }
}

/// The opacity dialog: the opacity to go back to, and the one chosen.
pub struct OpacityDialog {
    pub original: u8,
    pub result: Option<u8>,
}

/// An event in the opacity dialog.
#[derive(Debug, Clone, Copy, PartialEq, Eq, Structural)]
pub enum OpacityDialogEvent {
    /// The slider moved; its position.
    Slide(isize),
    /// The OK button, with the slider's position.
    Confirm(isize),
    /// The Cancel button.
    Cancel,
    /// The close box.
    Close,
}

/// What the opacity dialog does for an event.
pub enum OpacityDialogAction {
    /// Shows the window at this opacity and the slider's label.
    Preview { opacity: u8, label: String },
    /// Closes the dialog, first putting the window back to `restore` where given.
    Finish { restore: Option<u8> },
}

impl OpacityDialog {
    /// The dialog opened at the window's opacity (clamped).
    pub fn new(current: u8) -> (res: OpacityDialog)
        ensures
            res.original == clamp_opacity_spec(current),
            res.result is None,
    {
        OpacityDialog { original: clamp_opacity(current), result: None }
    }

    /// Sliding previews the slider's opacity; OK chooses it and closes;
    /// Cancel and the close box put the original opacity back and close,
    /// choosing nothing.
    pub fn handle(&mut self, event: OpacityDialogEvent) -> (res: OpacityDialogAction)
        ensures
            final(self).original == old(self).original,
            match event {
                OpacityDialogEvent::Slide(pos) => {
                    &&& final(self).result == old(self).result
                    &&& res matches OpacityDialogAction::Preview { opacity, label }
                    &&& opacity == clamp_opacity_spec(pos as u8)
                    &&& label@ == opacity_label_spec(opacity)
                },
                OpacityDialogEvent::Confirm(pos) => {
                    &&& final(self).result == Some(clamp_opacity_spec(pos as u8))
                    &&& res matches OpacityDialogAction::Finish { restore }
                    &&& restore is None
                },
                _ => {
                    &&& final(self).result == old(self).result
                    &&& res matches OpacityDialogAction::Finish { restore }
                    &&& restore == Some(old(self).original)
                },
            },
    {
        match event {
            OpacityDialogEvent::Slide(pos) => {
                let opacity = slider_opacity(pos);
                let label = opacity_label(opacity);
                OpacityDialogAction::Preview { opacity, label }
            },
            OpacityDialogEvent::Confirm(pos) => {
                self.result = Some(slider_opacity(pos));
                OpacityDialogAction::Finish { restore: None }
            },
            _ => OpacityDialogAction::Finish { restore: Some(self.original) },
        }
    }
}

} // verus!

verus! {

/// The window is 40 high with no quote, and otherwise 12 plus 26 for each
/// quote row, for every count whose height fits in an `i32`.
pub proof fn law_content_height_per_row(count: usize)
    requires
        count <= 82595524,
    ensures
        content_height_fits(count),
        count == 0 ==> content_height_spec(count) == 40,
        count > 0 ==> content_height_spec(count) == 12 + 26 * count,
        count > 0 ==> content_height_spec((count + 1) as usize) == content_height_spec(count) + 26,
{
    assert((count as i32) as int == count as int);
    assert(((count + 1) as usize as i32) as int == count + 1);
}

/// The delete entry of the symbol at position `i` reads `删除 `, the symbol,
/// two spaces and the number `i + 1` in parentheses: the entries are
/// numbered 1, 2, 3, ... in list order.
pub proof fn law_remove_label_numbers_from_one(sym: Seq<char>, i: int)
    requires
        i >= 0,
    ensures
        ({
            let l = remove_label(sym, i);
            let k = sym.len() + 6;
            let d = l.subrange(k as int, l.len() - 1);
            &&& l.len() >= k + 2
            &&& l.subrange(0, 3) == seq!['删', '除', ' ']
            &&& l.subrange(3, 3 + sym.len() as int) == sym
            &&& l.subrange(3 + sym.len() as int, k as int) == seq![' ', ' ', '(']
            &&& l.last() == ')'
            &&& d.len() >= 1
            &&& (forall|j: int| 0 <= j < d.len() ==> crate::text::is_digit(#[trigger] d[j]))
            &&& d[0] != '0'
            &&& crate::text::digits_value(d) == i + 1
        }),
{
    reveal_strlit("删除 ");
    reveal_strlit("  (");
    reveal_strlit(")");
    crate::text::law_decimal_reads_back((i + 1) as nat);
    let dec = decimal((i + 1) as nat);
    let l = remove_label(sym, i);
    let k = sym.len() + 6;
    assert(l == seq!['删', '除', ' '] + sym + seq![' ', ' ', '('] + dec + seq![')']);
    assert(l.subrange(0, 3) =~= seq!['删', '除', ' ']);
    assert(l.subrange(3, 3 + sym.len() as int) =~= sym);
    assert(l.subrange(3 + sym.len() as int, k as int) =~= seq![' ', ' ', '(']);
    assert(l.subrange(k as int, l.len() - 1) =~= dec);
}

/// The opacity in percent is the nearest whole number: `pct / 100` is within
/// half a step of `opacity / 255`.
pub proof fn law_opacity_percent_rounds(opacity: u8)
    ensures
        ({
            let pct = opacity_percent_spec(opacity) as int;
            &&& pct * 255 <= opacity as int * 100 + 127
            &&& opacity as int * 100 + 127 < pct * 255 + 255
        }),
{
    let v = opacity as int * 100 + 127;
    assert(opacity_percent_spec(opacity) as int == v / 255);
    assert((v / 255) * 255 <= v && v < (v / 255) * 255 + 255) by (nonlinear_arith)
        requires
            v >= 0,
    ;
}

} // verus!
