//! What the running game decides each frame, apart from the console that
//! carries it out: which tile of the baked map covers a background position,
//! and how the player's sprite, its animation and the overlay window change
//! with the buttons held.
//!
//! The caller polls the buttons, hands them to [`Scene::step`], and performs
//! what comes back.

use vstd::prelude::*;
use crate::animation::{find_frame_count, is_first_named, BakedTag};
use crate::tile_map::{entry_of, TileGrid};

verus! {

/// The width of the screen, in pixels.
pub const SCREEN_WIDTH: i32 = 240;

/// The height of the screen, in pixels.
pub const SCREEN_HEIGHT: i32 = 160;

/// The width and height of the player's sprite, in pixels.
pub const SPRITE_SIZE: i32 = 16;

/// The width of the baked map, in tiles.
pub const MAP_WIDTH: i32 = 30;

/// The height of the baked map, in tiles.
pub const MAP_HEIGHT: i32 = 20;

/// The tile shown at every position outside the map.
pub const BORDER_TILE: u16 = 7;

/// The tile shown at a position of the map that the table does not reach.
pub const MISSING_TILE: u16 = 1;

/// The number of screen frames for which one frame of the animation stays.
pub const TICKS_PER_FRAME: usize = 16;

/// The number of frames of an animation that the baked table does not list.
pub const DEFAULT_FRAME_COUNT: u128 = 1;

/// The tile that covers the background position `(x, y)`, counted in tiles.
pub open spec fn background_tile_of(table: Seq<u16>, x: int, y: int) -> u16 {
    if 0 <= x < MAP_WIDTH && 0 <= y < MAP_HEIGHT {
        if y * MAP_WIDTH + x < table.len() {
            table[y * MAP_WIDTH + x]
        } else {
            MISSING_TILE
        }
    } else {
        BORDER_TILE
    }
}

/// Picks the tile that covers the background position `(x, y)`, counted in
/// tiles: inside the map the table's entry for that position, read row by
/// row, and outside it the border tile.
pub fn background_tile(table: &Vec<u16>, x: i32, y: i32) -> (tile: u16)
    ensures
        tile == background_tile_of(table@, x as int, y as int),
{
    if x < MAP_WIDTH && y < MAP_HEIGHT && x >= 0 && y >= 0 {
        let index: usize = (y * MAP_WIDTH + x) as usize;
        if index < table.len() {
            table[index]
        } else {
            MISSING_TILE
        }
    } else {
        BORDER_TILE
    }
}

/// The background shows what was baked: on the table of a grid of the map's
/// size, every position inside the map shows the entry of the grid's cell at
/// that position, and every position outside it the border tile.
pub proof fn lemma_background_shows_baked_cells(grid: &TileGrid, x: int, y: int)
    requires
        grid.spec_width() == MAP_WIDTH,
        grid.spec_height() == MAP_HEIGHT,
    ensures
        background_tile_of(grid.baked(), x, y) == if grid.in_grid(x, y) {
            entry_of(grid.cell(x, y))
        } else {
            BORDER_TILE
        },
{
    grid.lemma_baked_is_row_major();
}

/// The buttons as one frame sees them.
#[derive(Clone, Copy, Debug, PartialEq, Eq, Structural)]
pub struct Buttons {
    /// Right is held.
    pub right: bool,
    /// Left is held.
    pub left: bool,
    /// Up is held.
    pub up: bool,
    /// Down is held.
    pub down: bool,
    /// Start went down since the last frame.
    pub start: bool,
    /// A went down since the last frame.
    pub a: bool,
}

/// What the caller has to do with the overlay window after a frame.
#[derive(Clone, Copy, Debug, PartialEq, Eq, Structural)]
pub enum Overlay {
    /// Leave it as it is.
    Keep,
    /// Show it.
    Show,
    /// Hide it.
    Hide,
}

/// What the caller has to carry out after a frame.
#[derive(Clone, Copy, Debug, PartialEq, Eq, Structural)]
pub struct Actions {
    /// The frame of the animation that the player's sprite shows.
    pub frame: usize,
    /// What to do with the overlay window.
    pub overlay: Overlay,
    /// Whether to play the sound effect.
    pub play_sound: bool,
}

/// The state of the scene as a plain value.
pub struct SceneView {
    /// The left edge of the player's sprite.
    pub x: int,
    /// The top edge of the player's sprite.
    pub y: int,
    /// Whether the sprite is mirrored to face left.
    pub flipped: bool,
    /// The screen frames counted within one run of the animation.
    pub tick: int,
    /// The number of frames of the animation.
    pub frame_count: int,
    /// Whether the overlay window is shown.
    pub overlay_shown: bool,
}

impl SceneView {
    /// The scene at the start, for an animation of `frame_count` frames: the
    /// sprite in the middle of the screen and facing right, the animation at
    /// its first frame, the overlay window hidden.
    pub open spec fn initial(frame_count: int) -> SceneView {
        SceneView {
            x: SCREEN_WIDTH / 2 - SPRITE_SIZE / 2,
            y: SCREEN_HEIGHT / 2 - SPRITE_SIZE / 2,
            flipped: false,
            tick: 0,
            frame_count,
            overlay_shown: false,
        }
    }

    /// Whether a scene can start for an animation of `frame_count` frames:
    /// there is a frame, and the length of one run of the animation fits in a
    /// `usize`.
    pub open spec fn can_start(frame_count: int) -> bool {
        1 <= frame_count && TICKS_PER_FRAME * frame_count <= usize::MAX
    }

    /// The sprite lies on the screen, and the tick within one run of the
    /// animation.
    pub open spec fn valid(self) -> bool {
        &&& 0 <= self.x <= SCREEN_WIDTH - SPRITE_SIZE
        &&& 0 <= self.y <= SCREEN_HEIGHT - SPRITE_SIZE
        &&& 1 <= self.frame_count
        &&& 0 <= self.tick < TICKS_PER_FRAME * self.frame_count
    }

    /// Whether the sprite steps right: right is held and there is room.
    pub open spec fn steps_right(self, buttons: Buttons) -> bool {
        buttons.right && self.x < SCREEN_WIDTH - SPRITE_SIZE
    }

    /// The left edge of the sprite after a step right, if any.
    pub open spec fn x_after_right(self, buttons: Buttons) -> int {
        if self.steps_right(buttons) {
            self.x + 1
        } else {
            self.x
        }
    }

    /// Whether the sprite steps left: left is held and, after a step right if
    /// any, there is room.
    pub open spec fn steps_left(self, buttons: Buttons) -> bool {
        buttons.left && self.x_after_right(buttons) > 0
    }

    /// Whether the sprite steps up: up is held and there is room.
    pub open spec fn steps_up(self, buttons: Buttons) -> bool {
        buttons.up && self.y > 0
    }

    /// The top edge of the sprite after a step up, if any.
    pub open spec fn y_after_up(self, buttons: Buttons) -> int {
        if self.steps_up(buttons) {
            self.y - 1
        } else {
            self.y
        }
    }

    /// Whether the sprite steps down: down is held and, after a step up if
    /// any, there is room.
    pub open spec fn steps_down(self, buttons: Buttons) -> bool {
        buttons.down && self.y_after_up(buttons) < SCREEN_HEIGHT - SPRITE_SIZE
    }

    /// The scene one frame later.
    ///
    /// The animation moves on by one tick and starts over at its end. The
    /// sprite steps one pixel in each direction that is held and has room,
    /// right before left and up before down; it faces the way of its last
    /// step to the side. Start turns the overlay window on or off.
    pub open spec fn stepped(self, buttons: Buttons) -> SceneView {
        SceneView {
            x: if self.steps_left(buttons) {
                self.x_after_right(buttons) - 1
            } else {
                self.x_after_right(buttons)
            },
            y: if self.steps_down(buttons) {
                self.y_after_up(buttons) + 1
            } else {
                self.y_after_up(buttons)
            },
            flipped: if self.steps_left(buttons) {
                true
            } else if self.steps_right(buttons) {
                false
            } else {
                self.flipped
            },
            tick: (self.tick + 1) % (TICKS_PER_FRAME * self.frame_count),
            frame_count: self.frame_count,
            overlay_shown: self.overlay_shown != buttons.start,
        }
    }

    /// What the caller has to carry out for the frame that leads from here
    /// to `self.stepped(buttons)`.
    pub open spec fn actions(self, buttons: Buttons) -> Actions {
        Actions {
            frame: (self.stepped(buttons).tick / (TICKS_PER_FRAME as int)) as usize,
            overlay: if !buttons.start {
                Overlay::Keep
            } else if self.overlay_shown {
                Overlay::Hide
            } else {
                Overlay::Show
            },
            play_sound: buttons.a,
        }
    }

    /// A frame leads from a valid scene to a valid scene, and the frame that
    /// the sprite then shows is one of the animation's.
    pub proof fn lemma_step_keeps_valid(self, buttons: Buttons)
        requires
            self.valid(),
        ensures
            self.stepped(buttons).valid(),
            0 <= self.stepped(buttons).tick / (TICKS_PER_FRAME as int) < self.frame_count,
    {
        let span = TICKS_PER_FRAME * self.frame_count;
        let next = (self.tick + 1) % span;
        assert(0 <= next < span) by (nonlinear_arith)
            requires
                span > 0,
                next == (self.tick + 1) % span,
        ;
        assert(0 <= next / 16 < self.frame_count) by (nonlinear_arith)
            requires
                0 <= next < 16 * self.frame_count,
        ;
    }
}

/// The scene: where the player's sprite is and which way it faces, how far
/// its animation has run, and whether the overlay window is shown.
#[derive(Debug, PartialEq, Eq)]
pub struct Scene {
    x: i32,
    y: i32,
    flipped: bool,
    tick: usize,
    frame_count: usize,
    overlay_shown: bool,
}

impl View for Scene {
    type V = SceneView;

    closed spec fn view(&self) -> SceneView {
        SceneView {
            x: self.x as int,
            y: self.y as int,
            flipped: self.flipped,
            tick: self.tick as int,
            frame_count: self.frame_count as int,
            overlay_shown: self.overlay_shown,
        }
    }
}

impl Scene {
    #[verifier::type_invariant]
    spec fn well_formed(self) -> bool {
        self@.valid() && TICKS_PER_FRAME * self.frame_count <= usize::MAX
    }

    /// The scene at the start, for an animation of `frame_count` frames;
    /// `None` where `frame_count` is 0, or so large that the length of one
    /// run of the animation does not fit in a `usize`.
    pub fn new(frame_count: usize) -> (scene: Option<Scene>)
        ensures
            scene is Some <==> SceneView::can_start(frame_count as int),
            scene matches Some(s) ==> s@ == SceneView::initial(frame_count as int) && s@.valid(),
    {
        if frame_count == 0 || frame_count > usize::MAX / TICKS_PER_FRAME {
            return None;
        }
        Some(
            Scene {
                x: SCREEN_WIDTH / 2 - SPRITE_SIZE / 2,
                y: SCREEN_HEIGHT / 2 - SPRITE_SIZE / 2,
                flipped: false,
                tick: 0,
                frame_count,
                overlay_shown: false,
            },
        )
    }

    /// The scene at the start, for the animation that the baked table lists
    /// under `name`: its length is the frame count of the first entry with
    /// that name, or [`DEFAULT_FRAME_COUNT`] where no entry has it. `None`
    /// where no scene can start for that length.
    pub fn for_animation(table: &Vec<BakedTag>, name: &str) -> (scene: Option<Scene>)
        ensures
            ({
                ||| exists|i: int|
                    is_first_named(table@, name@, i) && Self::starts_with(
                        scene,
                        (#[trigger] table@[i]).frame_count as int,
                    )
                ||| {
                    &&& forall|j: int|
                        0 <= j < table@.len() ==> (#[trigger] table@[j])@.name != name@
                    &&& Self::starts_with(scene, DEFAULT_FRAME_COUNT as int)
                }
            }),
    {
        let frame_count = match find_frame_count(table, name) {
            Some(frame_count) => frame_count,
            None => DEFAULT_FRAME_COUNT,
        };
        if frame_count > usize::MAX as u128 {
            None
        } else {
            Scene::new(frame_count as usize)
        }
    }

    /// Whether `scene` is what starting a scene for an animation of
    /// `frame_count` frames gives.
    pub open spec fn starts_with(scene: Option<Scene>, frame_count: int) -> bool {
        &&& scene is Some <==> SceneView::can_start(frame_count)
        &&& scene matches Some(s) ==> s@ == SceneView::initial(frame_count) && s@.valid()
    }

    /// The left edge of the player's sprite.
    pub fn x(&self) -> (x: i32)
        ensures
            x == self@.x,
    {
        self.x
    }

    /// The top edge of the player's sprite.
    pub fn y(&self) -> (y: i32)
        ensures
            y == self@.y,
    {
        self.y
    }

    /// Whether the sprite is mirrored to face left.
    pub fn flipped(&self) -> (flipped: bool)
        ensures
            flipped == self@.flipped,
    {
        self.flipped
    }

    /// Whether the overlay window is shown.
    pub fn overlay_shown(&self) -> (shown: bool)
        ensures
            shown == self@.overlay_shown,
    {
        self.overlay_shown
    }

    /// Moves the scene on by one frame, given the buttons as polled, and says
    /// what the caller has to carry out.
    pub fn step(&mut self, buttons: Buttons) -> (actions: Actions)
        ensures
            final(self)@ == old(self)@.stepped(buttons),
            actions == old(self)@.actions(buttons),
            final(self)@.valid(),
            actions.frame < final(self)@.frame_count,
    {
        proof {
            use_type_invariant(&*self);
            self@.lemma_step_keeps_valid(buttons);
        }
        let ghost before = self@;
        self.tick = (self.tick + 1) % (TICKS_PER_FRAME * self.frame_count);
        let frame: usize = self.tick / TICKS_PER_FRAME;
        if buttons.right && self.x < SCREEN_WIDTH - SPRITE_SIZE {
            self.x = self.x + 1;
            self.flipped = false;
        }
        if buttons.left && self.x > 0 {
            self.x = self.x - 1;
            self.flipped = true;
        }
        if buttons.up && self.y > 0 {
            self.y = self.y - 1;
        }
        if buttons.down && self.y < SCREEN_HEIGHT - SPRITE_SIZE {
            self.y = self.y + 1;
        }
        let overlay = if buttons.start {
            self.overlay_shown = !self.overlay_shown;
            if self.overlay_shown {
                Overlay::Show
            } else {
                Overlay::Hide
            }
        } else {
            Overlay::Keep
        };
        assert(self@ == before.stepped(buttons));
        Actions { frame, overlay, play_sound: buttons.a }
    }
}

} // verus!
