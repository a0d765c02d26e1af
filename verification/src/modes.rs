//! The cyclic mode selectors of the sandbox (side borders, backgrounds,
//! drag tools and spawnable shapes), with their labels.

use vstd::prelude::*;

verus! {

/// How the left and right screen edges behave: solid walls, wrapping to
/// the other side, or removing what crosses them.
#[derive(Clone, Copy, PartialEq, Eq, Structural, Debug)]
pub enum BorderMode {
    Default,
    Loop,
    Kill,
}

/// Position of a border mode in its cycle.
pub open spec fn border_index(m: BorderMode) -> int {
    match m {
        BorderMode::Default => 0,
        BorderMode::Loop => 1,
        BorderMode::Kill => 2,
    }
}

/// The mode that `next` moves to: walls, then loop, then kill, then walls
/// again.
pub open spec fn border_next(m: BorderMode) -> BorderMode {
    match m {
        BorderMode::Default => BorderMode::Loop,
        BorderMode::Loop => BorderMode::Kill,
        BorderMode::Kill => BorderMode::Default,
    }
}

pub open spec fn border_label(m: BorderMode) -> Seq<char> {
    match m {
        BorderMode::Default => "WALLS"@,
        BorderMode::Loop => "LOOP"@,
        BorderMode::Kill => "KILL"@,
    }
}

impl BorderMode {
    /// The border key: walls → loop → kill → walls.
    pub fn next(self) -> (r: BorderMode)
        ensures
            r == border_next(self),
            border_index(r) == (border_index(self) + 1) % 3,
    {
        match self {
            BorderMode::Default => BorderMode::Loop,
            BorderMode::Loop => BorderMode::Kill,
            BorderMode::Kill => BorderMode::Default,
        }
    }

    /// Whether the left and right walls are solid (only with walls; the
    /// floor is solid in every mode).
    pub fn has_side_walls(self) -> (r: bool)
        ensures
            r == (self == BorderMode::Default),
    {
        matches!(self, BorderMode::Default)
    }

    pub fn label(self) -> (r: &'static str)
        ensures
            r@ == border_label(self),
    {
        match self {
            BorderMode::Default => "WALLS",
            BorderMode::Loop => "LOOP",
            BorderMode::Kill => "KILL",
        }
    }
}

/// Law: the border key cycles walls, loop, kill: three presses give back
/// the mode one started from, and one or two presses do not.
pub proof fn lemma_border_cycle(m: BorderMode)
    ensures
        border_next(border_next(border_next(m))) == m,
        border_next(m) != m,
        border_next(border_next(m)) != m,
        border_next(BorderMode::Default) == BorderMode::Loop,
        border_next(BorderMode::Loop) == BorderMode::Kill,
        border_next(BorderMode::Kill) == BorderMode::Default,
{
}

/// Law: the labels of the border modes are pairwise different.
pub proof fn lemma_border_labels_distinct(a: BorderMode, b: BorderMode)
    requires
        a != b,
    ensures
        border_label(a) != border_label(b),
{
    reveal_strlit("WALLS");
    reveal_strlit("LOOP");
    reveal_strlit("KILL");
    if border_label(a).len() == border_label(b).len() {
        assert(border_label(a)[0] != border_label(b)[0]);
    }
}

/// The background style.
#[derive(Clone, Copy, PartialEq, Eq, Structural, Debug)]
pub enum BgMode {
    Dark,
    Space,
    Grid,
    Sunset,
    Ocean,
    Custom,
}

pub open spec fn bg_index(m: BgMode) -> int {
    match m {
        BgMode::Dark => 0,
        BgMode::Space => 1,
        BgMode::Grid => 2,
        BgMode::Sunset => 3,
        BgMode::Ocean => 4,
        BgMode::Custom => 5,
    }
}

pub open spec fn bg_label(m: BgMode) -> Seq<char> {
    match m {
        BgMode::Dark => "Dark"@,
        BgMode::Space => "Space"@,
        BgMode::Grid => "Grid"@,
        BgMode::Sunset => "Sunset"@,
        BgMode::Ocean => "Ocean"@,
        BgMode::Custom => "Custom"@,
    }
}

impl BgMode {
    /// The following style, wrapping from `Custom` back to `Dark`.
    pub fn next(self) -> (r: BgMode)
        ensures
            r == bg_next(self),
            bg_index(r) == (bg_index(self) + 1) % 6,
    {
        match self {
            BgMode::Dark => BgMode::Space,
            BgMode::Space => BgMode::Grid,
            BgMode::Grid => BgMode::Sunset,
            BgMode::Sunset => BgMode::Ocean,
            BgMode::Ocean => BgMode::Custom,
            BgMode::Custom => BgMode::Dark,
        }
    }

    pub fn label(self) -> (r: &'static str)
        ensures
            r@ == bg_label(self),
    {
        match self {
            BgMode::Dark => "Dark",
            BgMode::Space => "Space",
            BgMode::Grid => "Grid",
            BgMode::Sunset => "Sunset",
            BgMode::Ocean => "Ocean",
            BgMode::Custom => "Custom",
        }
    }
}

/// The style that `next` moves to.
pub open spec fn bg_next(m: BgMode) -> BgMode {
    match m {
        BgMode::Dark => BgMode::Space,
        BgMode::Space => BgMode::Grid,
        BgMode::Grid => BgMode::Sunset,
        BgMode::Sunset => BgMode::Ocean,
        BgMode::Ocean => BgMode::Custom,
        BgMode::Custom => BgMode::Dark,
    }
}

/// Law: six presses of the background button bring back the starting
/// style, and a style is fixed by its position in the cycle.
pub proof fn lemma_bg_cycle(a: BgMode, b: BgMode)
    ensures
        bg_next(bg_next(bg_next(bg_next(bg_next(bg_next(a)))))) == a,
        bg_index(a) == bg_index(b) ==> a == b,
        bg_index(bg_next(a)) == (bg_index(a) + 1) % 6,
{
}

/// What the background key does: in `Custom` it keeps the style and asks
/// for an image; otherwise it moves to the next style and asks for an image
/// when that style is `Custom`.  Returns the new style and whether to ask.
pub fn background_key(mode: BgMode) -> (r: (BgMode, bool))
    ensures
        r == (if mode == BgMode::Custom {
            (BgMode::Custom, true)
        } else {
            (bg_next(mode), bg_next(mode) == BgMode::Custom)
        }),
{
    if mode == BgMode::Custom {
        (BgMode::Custom, true)
    } else {
        let n = mode.next();
        (n, n == BgMode::Custom)
    }
}

/// What a left drag does.
#[derive(Clone, Copy, PartialEq, Eq, Structural, Debug)]
pub enum DragMode {
    Spring,
    Slingshot,
    Pull,
    Push,
    Vortex,
    Freeze,
    Orbit,
    Bomb,
}

pub open spec fn drag_index(m: DragMode) -> int {
    match m {
        DragMode::Spring => 0,
        DragMode::Slingshot => 1,
        DragMode::Pull => 2,
        DragMode::Push => 3,
        DragMode::Vortex => 4,
        DragMode::Freeze => 5,
        DragMode::Orbit => 6,
        DragMode::Bomb => 7,
    }
}

pub open spec fn drag_label(m: DragMode) -> Seq<char> {
    match m {
        DragMode::Spring => "Spring"@,
        DragMode::Slingshot => "Slingshot"@,
        DragMode::Pull => "Pull"@,
        DragMode::Push => "Push"@,
        DragMode::Vortex => "Vortex"@,
        DragMode::Freeze => "Freeze"@,
        DragMode::Orbit => "Orbit"@,
        DragMode::Bomb => "Bomb"@,
    }
}

/// The drag modes in picker order.
pub open spec fn drag_modes() -> Seq<DragMode> {
    seq![
        DragMode::Spring,
        DragMode::Slingshot,
        DragMode::Pull,
        DragMode::Push,
        DragMode::Vortex,
        DragMode::Freeze,
        DragMode::Orbit,
        DragMode::Bomb,
    ]
}

/// What a left press in the scene does in a given drag mode.
#[derive(Clone, Copy, PartialEq, Eq, Structural, Debug)]
pub enum PressEffect {
    /// Grab the object under the cursor (spring or slingshot).
    Grab,
    /// Switch on the force field around the cursor.
    Field,
    /// Detonate a radial explosion at the cursor.
    Explode,
}

impl DragMode {
    pub fn label(self) -> (r: &'static str)
        ensures
            r@ == drag_label(self),
    {
        match self {
            DragMode::Spring => "Spring",
            DragMode::Slingshot => "Slingshot",
            DragMode::Pull => "Pull",
            DragMode::Push => "Push",
            DragMode::Vortex => "Vortex",
            DragMode::Freeze => "Freeze",
            DragMode::Orbit => "Orbit",
            DragMode::Bomb => "Bomb",
        }
    }

    /// The following mode, wrapping from `Bomb` back to `Spring`.
    pub fn next(self) -> (r: DragMode)
        ensures
            drag_index(r) == (drag_index(self) + 1) % 8,
    {
        match self {
            DragMode::Spring => DragMode::Slingshot,
            DragMode::Slingshot => DragMode::Pull,
            DragMode::Pull => DragMode::Push,
            DragMode::Push => DragMode::Vortex,
            DragMode::Vortex => DragMode::Freeze,
            DragMode::Freeze => DragMode::Orbit,
            DragMode::Orbit => DragMode::Bomb,
            DragMode::Bomb => DragMode::Spring,
        }
    }

    /// All drag modes, in picker order.
    pub fn all() -> (r: Vec<DragMode>)
        ensures
            r@ == drag_modes(),
    {
        let r = vec![
            DragMode::Spring,
            DragMode::Slingshot,
            DragMode::Pull,
            DragMode::Push,
            DragMode::Vortex,
            DragMode::Freeze,
            DragMode::Orbit,
            DragMode::Bomb,
        ];
        assert(r@ =~= drag_modes());
        r
    }

    /// Whether the radius/force slider panel is shown (every mode but
    /// `Spring` and `Slingshot`).
    pub fn shows_field_panel(self) -> (r: bool)
        ensures
            r == !(self == DragMode::Spring || self == DragMode::Slingshot),
    {
        !matches!(self, DragMode::Spring | DragMode::Slingshot)
    }

    /// What a left press in the scene does.
    pub fn press_effect(self) -> (r: PressEffect)
        ensures
            r == (if self == DragMode::Bomb {
                PressEffect::Explode
            } else if self == DragMode::Spring || self == DragMode::Slingshot {
                PressEffect::Grab
            } else {
                PressEffect::Field
            }),
    {
        match self {
            DragMode::Pull | DragMode::Push | DragMode::Vortex | DragMode::Freeze | DragMode::Orbit => {
                PressEffect::Field
            },
            DragMode::Bomb => PressEffect::Explode,
            _ => PressEffect::Grab,
        }
    }
}

/// Law: the picker lists every drag mode exactly once, at the position its
/// cycle index gives.
pub proof fn lemma_drag_modes_complete(m: DragMode)
    ensures
        drag_modes()[drag_index(m)] == m,
        forall|a: int, b: int| 0 <= a < b < 8 ==> drag_modes()[a] != drag_modes()[b],
        drag_modes().len() == 8,
{
}

/// Law: applying `next` repeatedly walks the modes in picker order.
pub proof fn lemma_drag_next_follows_picker(m: DragMode)
    ensures
        drag_modes()[(drag_index(m) + 1) % 8] == match m {
            DragMode::Spring => DragMode::Slingshot,
            DragMode::Slingshot => DragMode::Pull,
            DragMode::Pull => DragMode::Push,
            DragMode::Push => DragMode::Vortex,
            DragMode::Vortex => DragMode::Freeze,
            DragMode::Freeze => DragMode::Orbit,
            DragMode::Orbit => DragMode::Bomb,
            DragMode::Bomb => DragMode::Spring,
        },
{
}

/// A shape the spawner can create.
#[derive(Clone, Copy, PartialEq, Eq, Structural, Debug)]
pub enum SpawnShape {
    Circle,
    Box,
    Triangle,
    Pentagon,
    Star,
}

pub open spec fn shape_label(s: SpawnShape) -> Seq<char> {
    match s {
        SpawnShape::Circle => "Circle"@,
        SpawnShape::Box => "Box"@,
        SpawnShape::Triangle => "Triangle"@,
        SpawnShape::Pentagon => "Pentagon"@,
        SpawnShape::Star => "Star"@,
    }
}

/// The shapes in button order.
pub open spec fn spawn_shapes() -> Seq<SpawnShape> {
    seq![
        SpawnShape::Circle,
        SpawnShape::Box,
        SpawnShape::Triangle,
        SpawnShape::Pentagon,
        SpawnShape::Star,
    ]
}

impl SpawnShape {
    pub fn label(self) -> (r: &'static str)
        ensures
            r@ == shape_label(self),
    {
        match self {
            SpawnShape::Circle => "Circle",
            SpawnShape::Box => "Box",
            SpawnShape::Triangle => "Triangle",
            SpawnShape::Pentagon => "Pentagon",
            SpawnShape::Star => "Star",
        }
    }

    /// The name a spawned object is given: `__spawn__` and the shape's label.
    pub fn spawn_name(self) -> (r: String)
        ensures
            r@ == "__spawn__"@ + shape_label(self),
    {
        let mut r = "__spawn__".to_string();
        r.append(self.label());
        r
    }

    /// All shapes, in button order.
    pub fn all() -> (r: Vec<SpawnShape>)
        ensures
            r@ == spawn_shapes(),
    {
        let r = vec![
            SpawnShape::Circle,
            SpawnShape::Box,
            SpawnShape::Triangle,
            SpawnShape::Pentagon,
            SpawnShape::Star,
        ];
        assert(r@ =~= spawn_shapes());
        r
    }
}

} // verus!
