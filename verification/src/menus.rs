//! The pop-up menus and pickers: which item a pointer event selects and
//! how each menu's state changes.  Hit-testing against screen rectangles is
//! done by the caller, which reports the first item (in menu order) whose
//! rectangle holds the pointer.

use vstd::prelude::*;
use crate::modes::{drag_modes, spawn_shapes, DragMode, SpawnShape};

verus! {

/// Width of the context menu and of its submenu, in pixels.
pub const MENU_W: u32 = 200;
/// Height of one menu row, in pixels.
pub const MENU_ITEM_H: u32 = 32;
/// Number of items in the context menu.
pub const MENU_ITEMS: usize = 4;
/// Number of entries in the resize submenu (50 %, 75 %, 100 %, 150 %, 200 %).
pub const RESIZE_STEPS: usize = 5;

/// What a context-menu choice asks for.  The resize choices carry the index
/// of the chosen step in the resize submenu.
#[derive(Clone, Copy, PartialEq, Eq, Structural, Debug)]
pub enum MenuAction {
    Resize(usize),
    SizeAll(usize),
    CopyPaste,
    Delete,
}

/// Whether item `i` of the context menu opens a submenu (Resize, Size All).
pub open spec fn has_submenu_spec(i: int) -> bool {
    i == 0 || i == 2
}

/// The action of a context-menu item without a submenu.
pub open spec fn item_action_spec(i: int) -> Option<MenuAction> {
    if i == 1 {
        Some(MenuAction::CopyPaste)
    } else if i == 3 {
        Some(MenuAction::Delete)
    } else {
        None
    }
}

pub fn has_submenu(i: usize) -> (r: bool)
    ensures
        r == has_submenu_spec(i as int),
{
    i == 0 || i == 2
}

/// Distance from the menu's top edge to item `idx`: a 6-pixel margin, the
/// rows above it, and a 10-pixel separator before the last item.
pub fn item_offset(idx: usize) -> (r: u32)
    requires
        idx < MENU_ITEMS,
    ensures
        r == 6 + 32 * idx + if idx + 1 == MENU_ITEMS {
            10int
        } else {
            0
        },
{
    let base = 6 + 32 * (idx as u32);
    if idx + 1 == MENU_ITEMS {
        base + 10
    } else {
        base
    }
}

/// Height of the context menu: its rows, the separator and the margins.
pub fn menu_total_h() -> (r: u32)
    ensures
        r == 32 * 4 + 10 + 12,
{
    MENU_ITEM_H * (MENU_ITEMS as u32) + 10 + 12
}

/// Height of the resize submenu.
pub fn submenu_h() -> (r: u32)
    ensures
        r == 5 * 32 + 12,
{
    (RESIZE_STEPS as u32) * MENU_ITEM_H + 12
}

/// The state of the context menu: whether it is shown, which object it acts
/// on, which item's submenu is open and which rows are highlighted
/// (`-1` for none).
pub struct ContextMenu {
    pub visible: bool,
    pub target_idx: usize,
    pub show_sub: i32,
    pub hovered: i32,
    pub sub_hovered: i32,
}

/// Where the pointer is, as the menu's hit tests see it.
pub struct MenuMotion {
    /// The pointer is over the open submenu or the gap leading to it.
    pub over_sub_panel: bool,
    /// First submenu row under the pointer, for the submenu now open.
    pub sub_hit: Option<usize>,
    /// First menu item under the pointer.
    pub top_hit: Option<usize>,
    /// First submenu row under the pointer for the submenu of `top_hit`.
    pub sub_hit_for_top: Option<usize>,
}

/// An optional row index as the menu stores it.
pub open spec fn row_or_none(o: Option<usize>) -> int {
    match o {
        Some(i) => i as int,
        None => -1,
    }
}

fn row_code(o: Option<usize>) -> (r: i32)
    requires
        o matches Some(i) ==> i < 100,
    ensures
        r == row_or_none(o),
{
    match o {
        Some(i) => i as i32,
        None => -1,
    }
}

impl ContextMenu {
    pub fn new() -> (r: ContextMenu)
        ensures
            !r.visible,
            r.target_idx == 0,
            r.show_sub == -1,
            r.hovered == -1,
            r.sub_hovered == -1,
    {
        ContextMenu { visible: false, target_idx: 0, show_sub: -1, hovered: -1, sub_hovered: -1 }
    }

    /// Shows the menu for object `idx`, with nothing highlighted.
    pub fn open(&mut self, idx: usize)
        ensures
            final(self).visible,
            final(self).target_idx == idx,
            final(self).show_sub == -1,
            final(self).hovered == -1,
            final(self).sub_hovered == -1,
    {
        self.visible = true;
        self.target_idx = idx;
        self.show_sub = -1;
        self.hovered = -1;
        self.sub_hovered = -1;
    }

    /// Hides the menu; the rest of its state is kept.
    pub fn close(&mut self)
        ensures
            !final(self).visible,
            final(self).target_idx == old(self).target_idx,
            final(self).show_sub == old(self).show_sub,
            final(self).hovered == old(self).hovered,
            final(self).sub_hovered == old(self).sub_hovered,
    {
        self.visible = false;
    }

    /// A right click: an open menu closes, and the menu opens for the
    /// object under the pointer, if there is one.
    pub fn right_click(&mut self, hit: Option<usize>)
        ensures
            match hit {
                Some(i) => {
                    &&& final(self).visible
                    &&& final(self).target_idx == i
                    &&& final(self).show_sub == -1
                    &&& final(self).hovered == -1
                    &&& final(self).sub_hovered == -1
                },
                None => *final(self) == (ContextMenu { visible: false, ..*old(self) }),
            },
    {
        if self.visible {
            self.close();
        }
        if let Some(i) = hit {
            self.open(i);
        }
    }

    /// Follows the pointer: while it stays over an open submenu only the
    /// submenu highlight moves; otherwise the item under it is highlighted
    /// and, if it has one, its submenu opens.
    pub fn handle_motion(&mut self, m: &MenuMotion)
        requires
            m.top_hit matches Some(i) ==> i < MENU_ITEMS,
            m.sub_hit matches Some(j) ==> j < RESIZE_STEPS,
            m.sub_hit_for_top matches Some(j) ==> j < RESIZE_STEPS,
        ensures
            final(self).visible == old(self).visible,
            final(self).target_idx == old(self).target_idx,
            !old(self).visible ==> *final(self) == *old(self),
            old(self).visible && old(self).show_sub >= 0 && m.over_sub_panel ==> {
                &&& final(self).show_sub == old(self).show_sub
                &&& final(self).hovered == old(self).hovered
                &&& final(self).sub_hovered == row_or_none(m.sub_hit)
            },
            old(self).visible && !(old(self).show_sub >= 0 && m.over_sub_panel) ==> {
                &&& final(self).hovered == row_or_none(m.top_hit)
                &&& final(self).show_sub == match m.top_hit {
                    Some(i) => if has_submenu_spec(i as int) {
                        i as int
                    } else {
                        -1
                    },
                    None => -1,
                }
                &&& final(self).sub_hovered == if final(self).show_sub >= 0 {
                    row_or_none(m.sub_hit_for_top)
                } else {
                    -1
                }
            },
    {
        if !self.visible {
            return;
        }
        if self.show_sub >= 0 && m.over_sub_panel {
            self.sub_hovered = row_code(m.sub_hit);
            return;
        }
        self.hovered = -1;
        self.sub_hovered = -1;
        self.show_sub = -1;
        if let Some(i) = m.top_hit {
            self.hovered = i as i32;
            self.show_sub = if has_submenu(i) {
                i as i32
            } else {
                -1
            };
        }
        if self.show_sub >= 0 {
            self.sub_hovered = row_code(m.sub_hit_for_top);
        }
    }

    /// A click: a submenu row picks a resize step (of the object for the
    /// Resize submenu, of every object for Size All); an item without a
    /// submenu picks its action; both close the menu.  A click on an item
    /// with a submenu does nothing; a click elsewhere closes the menu.
    pub fn handle_click(&mut self, sub_hit: Option<usize>, top_hit: Option<usize>) -> (r: Option<(MenuAction, usize)>)
        requires
            top_hit matches Some(i) ==> i < MENU_ITEMS,
            sub_hit matches Some(j) ==> j < RESIZE_STEPS,
        ensures
            final(self).target_idx == old(self).target_idx,
            final(self).show_sub == old(self).show_sub,
            final(self).hovered == old(self).hovered,
            final(self).sub_hovered == old(self).sub_hovered,
            !old(self).visible ==> r is None && !final(self).visible,
            old(self).visible ==> (r == (if old(self).show_sub >= 0 && sub_hit is Some {
                Some(
                    (
                        if old(self).show_sub == 0 {
                            MenuAction::Resize(sub_hit->Some_0)
                        } else {
                            MenuAction::SizeAll(sub_hit->Some_0)
                        },
                        old(self).target_idx,
                    ),
                )
            } else {
                match top_hit {
                    Some(i) => match item_action_spec(i as int) {
                        Some(a) => Some((a, old(self).target_idx)),
                        None => None,
                    },
                    None => None,
                }
            })),
            old(self).visible ==> (final(self).visible <==> (!(old(self).show_sub >= 0
                && sub_hit is Some) && top_hit is Some && has_submenu_spec(top_hit->Some_0 as int))),
    {
        if !self.visible {
            return None;
        }
        if self.show_sub >= 0 {
            if let Some(j) = sub_hit {
                let action = if self.show_sub == 0 {
                    MenuAction::Resize(j)
                } else {
                    MenuAction::SizeAll(j)
                };
                let idx = self.target_idx;
                self.close();
                return Some((action, idx));
            }
        }
        if let Some(i) = top_hit {
            if has_submenu(i) {
                return None;
            }
            let action = if i == 1 {
                MenuAction::CopyPaste
            } else {
                MenuAction::Delete
            };
            let idx = self.target_idx;
            self.close();
            return Some((action, idx));
        }
        self.close();
        None
    }
}

/// Columns of the drag-mode picker grid.
pub const PICKER_COLS: usize = 4;

/// Rows of the drag-mode picker grid: enough for every mode.
pub fn picker_rows() -> (r: usize)
    ensures
        r == 2,
        r * PICKER_COLS >= drag_modes().len(),
{
    let n: usize = 8;
    (n + PICKER_COLS - 1) / PICKER_COLS
}

/// Size of the picker panel: cells of 140 × 90 with 10-pixel gaps, an
/// 18-pixel margin and a 24-pixel title row.
pub fn picker_panel_size() -> (r: (u32, u32))
    ensures
        r.0 == 4 * 140 + 3 * 10 + 36,
        r.1 == 2 * 90 + 10 + 36 + 24,
{
    let cols = PICKER_COLS as u32;
    let rows = picker_rows() as u32;
    (cols * 140 + (cols - 1) * 10 + 36, rows * 90 + (rows - 1) * 10 + 36 + 24)
}

/// Offset of cell `i` from the picker panel's top-left corner: column
/// `i % 4`, row `i / 4`.
pub fn picker_cell_offset(i: usize) -> (r: (u32, u32))
    requires
        i < 8,
    ensures
        r.0 == 18 + (i % 4) * 150,
        r.1 == 18 + 24 + (i / 4) * 100,
{
    let col = (i % PICKER_COLS) as u32;
    let row = (i / PICKER_COLS) as u32;
    (18 + col * 150, 18 + 24 + row * 100)
}

/// The drag-mode picker: shown or not, and the highlighted cell (`-1` for
/// none).  "Active" below means the picker is still visible on screen
/// (it fades out after closing).
pub struct DragModeMenu {
    pub visible: bool,
    pub hovered: i32,
}

impl DragModeMenu {
    pub fn new() -> (r: DragModeMenu)
        ensures
            !r.visible,
            r.hovered == -1,
    {
        DragModeMenu { visible: false, hovered: -1 }
    }

    pub fn open(&mut self)
        ensures
            final(self).visible,
            final(self).hovered == -1,
    {
        self.visible = true;
        self.hovered = -1;
    }

    pub fn close(&mut self)
        ensures
            !final(self).visible,
            final(self).hovered == old(self).hovered,
    {
        self.visible = false;
    }

    /// The picker key: opens a closed picker, closes an open one.
    pub fn toggle(&mut self)
        ensures
            final(self).visible == !old(self).visible,
            final(self).hovered == if old(self).visible {
                old(self).hovered as int
            } else {
                -1
            },
    {
        if self.visible {
            self.close();
        } else {
            self.open();
        }
    }

    /// Highlights the cell under the pointer while the picker is on screen.
    pub fn handle_motion(&mut self, active: bool, cell_hit: Option<usize>)
        requires
            cell_hit matches Some(i) ==> i < 8,
        ensures
            final(self).visible == old(self).visible,
            final(self).hovered == if active {
                row_or_none(cell_hit)
            } else {
                old(self).hovered as int
            },
    {
        if !active {
            return;
        }
        self.hovered = row_code(cell_hit);
    }

    /// A click while the picker is on screen: a cell picks its mode and
    /// closes the picker; a click outside the panel only closes it.
    pub fn handle_click(&mut self, active: bool, cell_hit: Option<usize>, in_panel: bool) -> (r: Option<DragMode>)
        requires
            cell_hit matches Some(i) ==> i < 8,
        ensures
            final(self).hovered == old(self).hovered,
            r == (if active && cell_hit is Some {
                Some(drag_modes()[cell_hit->Some_0 as int])
            } else {
                None
            }),
            final(self).visible == (old(self).visible && !(active && (cell_hit is Some || !in_panel))),
    {
        if !active {
            return None;
        }
        if let Some(i) = cell_hit {
            let modes = DragMode::all();
            self.close();
            return Some(modes[i]);
        }
        if !in_panel {
            self.close();
        }
        None
    }
}

/// The spawner's colour palette.
pub open spec fn spawn_palette() -> Seq<(u8, u8, u8)> {
    seq![
        (220u8, 80u8, 80u8),
        (80u8, 180u8, 80u8),
        (80u8, 130u8, 230u8),
        (230u8, 180u8, 50u8),
        (200u8, 80u8, 200u8),
        (80u8, 210u8, 200u8),
        (240u8, 130u8, 50u8),
        (200u8, 200u8, 200u8),
    ]
}

/// Colour `i` of the spawner's palette.
pub fn spawn_color(i: usize) -> (r: (u8, u8, u8))
    requires
        i < 8,
    ensures
        r == spawn_palette()[i as int],
{
    let palette: Vec<(u8, u8, u8)> = vec![
        (220, 80, 80),
        (80, 180, 80),
        (80, 130, 230),
        (230, 180, 50),
        (200, 80, 200),
        (80, 210, 200),
        (240, 130, 50),
        (200, 200, 200),
    ];
    assert(palette@ =~= spawn_palette());
    palette[i]
}

/// What a click on the spawner panel did.
#[derive(Clone, Copy, PartialEq, Eq, Structural, Debug)]
pub enum SpawnerClick {
    /// The panel is not on screen or the click is outside it.
    Ignored,
    /// A shape button was chosen.
    Shape,
    /// A colour swatch was chosen.
    Color,
    /// The size track was clicked; the caller sets the size.
    Track,
    /// Elsewhere on the panel: consumed, nothing changes.
    Panel,
}

/// The spawner's choices (its size and fade are kept by the caller).
pub struct Spawner {
    pub visible: bool,
    pub shape: SpawnShape,
    pub color_idx: usize,
}

impl Spawner {
    pub fn new() -> (r: Spawner)
        ensures
            !r.visible,
            r.shape == SpawnShape::Circle,
            r.color_idx == 0,
    {
        Spawner { visible: false, shape: SpawnShape::Circle, color_idx: 0 }
    }

    pub fn toggle(&mut self)
        ensures
            final(self).visible == !old(self).visible,
            final(self).shape == old(self).shape,
            final(self).color_idx == old(self).color_idx,
    {
        self.visible = !self.visible;
    }

    /// A click: shape buttons first, then colour swatches, then the size
    /// track, each taking the first hit.
    pub fn handle_click(
        &mut self,
        active: bool,
        in_panel: bool,
        shape_hit: Option<usize>,
        color_hit: Option<usize>,
        on_track: bool,
    ) -> (r: SpawnerClick)
        requires
            shape_hit matches Some(i) ==> i < 5,
            color_hit matches Some(i) ==> i < 8,
        ensures
            final(self).visible == old(self).visible,
            r == (if !active || !in_panel {
                SpawnerClick::Ignored
            } else if shape_hit is Some {
                SpawnerClick::Shape
            } else if color_hit is Some {
                SpawnerClick::Color
            } else if on_track {
                SpawnerClick::Track
            } else {
                SpawnerClick::Panel
            }),
            final(self).shape == (if r == SpawnerClick::Shape {
                spawn_shapes()[shape_hit->Some_0 as int]
            } else {
                old(self).shape
            }),
            final(self).color_idx == (if r == SpawnerClick::Color {
                color_hit->Some_0
            } else {
                old(self).color_idx
            }),
    {
        if !active || !in_panel {
            return SpawnerClick::Ignored;
        }
        if let Some(i) = shape_hit {
            let shapes = SpawnShape::all();
            self.shape = shapes[i];
            return SpawnerClick::Shape;
        }
        if let Some(i) = color_hit {
            self.color_idx = i;
            return SpawnerClick::Color;
        }
        if on_track {
            return SpawnerClick::Track;
        }
        SpawnerClick::Panel
    }
}

/// The gravity preset buttons: which preset is lit (`-1` for none).
pub struct GravityButtons {
    pub active: i32,
}

impl GravityButtons {
    /// EARTH (the fourth preset) is lit at start.
    pub fn new() -> (r: GravityButtons)
        ensures
            r.active == 3,
    {
        GravityButtons { active: 3 }
    }

    /// A click on preset `hit` lights it and selects it.
    pub fn handle_click(&mut self, hit: Option<usize>) -> (r: Option<usize>)
        requires
            hit matches Some(i) ==> i < 7,
        ensures
            r == hit,
            final(self).active == match hit {
                Some(i) => i as int,
                None => old(self).active as int,
            },
    {
        match hit {
            Some(i) => {
                self.active = i as i32;
                Some(i)
            },
            None => None,
        }
    }
}

} // verus!
