//! Session lifecycle: the game states, the pause screen and its
//! save-before-leaving flow, and the check that the spawn area is loaded.

pub mod menu;

use vstd::prelude::*;

use crate::chunk::ChunkStorage;
use crate::chunk::ChunkView;
use crate::coordinates::ChunkPos;
use crate::generation::streaming::GenerationSettings;

verus! {

/// Lifecycle states for a game session.
#[derive(Clone, Copy, Debug, PartialEq, Eq, Structural, Hash)]
pub enum GameState {
    MainMenu,
    /// Loading resources and preparing the initial world.
    Loading,
    /// Running the interactive sandbox simulation.
    Playing,
    /// Suspending player-facing gameplay while menus are open.
    Paused,
}

impl Default for GameState {
    fn default() -> (r: Self)
        ensures
            r == GameState::MainMenu,
    {
        GameState::MainMenu
    }
}

/// Where the player asked to go once the save has finished.
#[derive(Clone, Copy, Debug, PartialEq, Eq, Structural)]
pub enum Destination {
    Menu,
    Quit,
}

/// State of the pause screen.
#[derive(Clone, Debug, PartialEq, Eq)]
pub struct PauseModel {
    /// The settings page is shown instead of the pause buttons.
    pub settings: bool,
    /// A save was requested and its outcome has not been seen yet.
    pub waiting: bool,
    /// Where to go when the awaited save succeeds.
    pub destination: Option<Destination>,
    /// The error of the last failed save, shown as "Save failed: ...".
    pub save_error: Option<String>,
}

impl PauseModel {
    /// The screen as it opens: buttons shown, nothing pending.
    pub fn new() -> (r: Self)
        ensures
            !r.settings,
            !r.waiting,
            r.destination is None,
            r.save_error is None,
    {
        PauseModel { settings: false, waiting: false, destination: None, save_error: None }
    }
}

/// What pressing Escape leads to: the state to switch to, and whether the
/// settings page is closed instead.
pub open spec fn spec_escape(state: GameState, inventory_open: bool, pause: PauseModel) -> (
    Option<GameState>,
    bool,
) {
    match state {
        GameState::Playing => if !inventory_open {
            (Some(GameState::Paused), false)
        } else {
            (None, false)
        },
        GameState::Paused => if pause.waiting {
            (None, false)
        } else if pause.settings {
            (None, true)
        } else {
            (Some(GameState::Playing), false)
        },
        _ => (None, false),
    }
}

/// Handles Escape: pauses play (unless the inventory has the key), leaves
/// the settings page, or resumes; nothing happens while a save is awaited.
/// Returns the state to switch to, if any.
pub fn escape(state: GameState, inventory_open: bool, pause: &mut PauseModel) -> (r: Option<
    GameState,
>)
    ensures
        r == spec_escape(state, inventory_open, *old(pause)).0,
        final(pause).settings == (old(pause).settings && !spec_escape(
            state,
            inventory_open,
            *old(pause),
        ).1),
        final(pause).waiting == old(pause).waiting,
        final(pause).destination == old(pause).destination,
        final(pause).save_error == old(pause).save_error,
{
    match state {
        GameState::Playing => {
            if !inventory_open {
                Some(GameState::Paused)
            } else {
                None
            }
        },
        GameState::Paused => {
            if pause.waiting {
                None
            } else if pause.settings {
                pause.settings = false;
                None
            } else {
                Some(GameState::Playing)
            }
        },
        _ => None,
    }
}

/// A button on the pause screen. The sliders for mouse sensitivity, field of
/// view and volume are handled by the application.
#[derive(Clone, Copy, Debug, PartialEq, Eq, Structural)]
pub enum PauseAction {
    Resume,
    Settings,
    Save,
    Menu,
    Quit,
    Back,
    /// Change the render distance by this many chunks.
    Distance(i32),
    Vsync,
}

/// What the application does after a pause-screen click.
#[derive(Clone, Copy, Debug, PartialEq, Eq, Structural)]
pub enum PauseEffect {
    Nothing,
    /// Switch back to playing.
    Resume,
    /// Send a save request.
    RequestSave,
    /// Store the new render distance.
    SetRenderDistance(i32),
    /// Flip vertical sync.
    ToggleVsync,
}

/// Smallest render distance the settings accept.
pub const MIN_RENDER_DISTANCE: i32 = 2;

/// Largest render distance the settings accept.
pub const MAX_RENDER_DISTANCE: i32 = 16;

pub open spec fn clamp_int(v: int, low: int, high: int) -> int {
    if v < low {
        low
    } else if v > high {
        high
    } else {
        v
    }
}

/// A render distance forced into the accepted range.
pub fn sanitize_render_distance(distance: i32) -> (r: i32)
    ensures
        r == clamp_int(distance as int, MIN_RENDER_DISTANCE as int, MAX_RENDER_DISTANCE as int),
{
    if distance < MIN_RENDER_DISTANCE {
        MIN_RENDER_DISTANCE
    } else if distance > MAX_RENDER_DISTANCE {
        MAX_RENDER_DISTANCE
    } else {
        distance
    }
}

/// Handles a pause-screen click; clicks are ignored while a save is awaited.
pub fn pause_click(pause: &mut PauseModel, action: PauseAction, render_distance: i32) -> (r:
    PauseEffect)
    requires
        action matches PauseAction::Distance(delta) ==> i32::MIN <= render_distance + delta
            <= i32::MAX,
    ensures
        old(pause).waiting ==> r == PauseEffect::Nothing && *final(pause) == *old(pause),
        !old(pause).waiting ==> match action {
            PauseAction::Resume => r == PauseEffect::Resume && *final(pause) == *old(pause),
            PauseAction::Settings => r == PauseEffect::Nothing && *final(pause) == (PauseModel {
                settings: true,
                ..*old(pause)
            }),
            PauseAction::Back => r == PauseEffect::Nothing && *final(pause) == (PauseModel {
                settings: false,
                ..*old(pause)
            }),
            PauseAction::Save => r == PauseEffect::RequestSave && *final(pause) == (PauseModel {
                waiting: true,
                destination: None,
                save_error: None,
                ..*old(pause)
            }),
            PauseAction::Menu => r == PauseEffect::RequestSave && *final(pause) == (PauseModel {
                waiting: true,
                destination: Some(Destination::Menu),
                save_error: None,
                ..*old(pause)
            }),
            PauseAction::Quit => r == PauseEffect::RequestSave && *final(pause) == (PauseModel {
                waiting: true,
                destination: Some(Destination::Quit),
                save_error: None,
                ..*old(pause)
            }),
            PauseAction::Distance(delta) => r == PauseEffect::SetRenderDistance(
                clamp_int(render_distance + delta, MIN_RENDER_DISTANCE as int, MAX_RENDER_DISTANCE as int) as i32,
            ) && *final(pause) == *old(pause),
            PauseAction::Vsync => r == PauseEffect::ToggleVsync && *final(pause) == *old(pause),
        },
{
    if pause.waiting {
        return PauseEffect::Nothing;
    }
    match action {
        PauseAction::Resume => PauseEffect::Resume,
        PauseAction::Settings => {
            pause.settings = true;
            PauseEffect::Nothing
        },
        PauseAction::Back => {
            pause.settings = false;
            PauseEffect::Nothing
        },
        PauseAction::Save => {
            pause.destination = None;
            pause.waiting = true;
            pause.save_error = None;
            PauseEffect::RequestSave
        },
        PauseAction::Menu => {
            pause.destination = Some(Destination::Menu);
            pause.waiting = true;
            pause.save_error = None;
            PauseEffect::RequestSave
        },
        PauseAction::Quit => {
            pause.destination = Some(Destination::Quit);
            pause.waiting = true;
            pause.save_error = None;
            PauseEffect::RequestSave
        },
        PauseAction::Distance(delta) => PauseEffect::SetRenderDistance(
            sanitize_render_distance(render_distance + delta),
        ),
        PauseAction::Vsync => PauseEffect::ToggleVsync,
    }
}

/// Where the session goes once an awaited save has been seen through.
#[derive(Clone, Copy, Debug, PartialEq, Eq, Structural)]
pub enum Departure {
    /// Nothing to do: no save awaited, or it is still running.
    Stay,
    /// Leave for the main menu.
    ToMenu,
    /// Close the application.
    Quit,
}

/// Runs once per frame while paused: after an awaited save finishes, leaves
/// for the chosen destination, unless the save failed, in which case the
/// player stays, sees the error, and the destination is forgotten.
pub fn departure(pause: &mut PauseModel, saving: bool, last_error: &Option<String>) -> (r:
    Departure)
    ensures
        (!old(pause).waiting || saving) ==> r == Departure::Stay && *final(pause) == *old(pause),
        (old(pause).waiting && !saving && last_error.is_some()) ==> r == Departure::Stay
            && *final(pause) == (PauseModel {
            waiting: false,
            destination: None,
            save_error: *last_error,
            ..*old(pause)
        }),
        (old(pause).waiting && !saving && last_error.is_none()) ==> *final(pause) == (PauseModel {
            waiting: false,
            destination: None,
            ..*old(pause)
        }) && r == match old(pause).destination {
            Some(Destination::Menu) => Departure::ToMenu,
            Some(Destination::Quit) => Departure::Quit,
            None => Departure::Stay,
        },
{
    if !pause.waiting || saving {
        return Departure::Stay;
    }
    pause.waiting = false;
    match last_error {
        Some(error) => {
            pause.save_error = Some(error.clone());
            pause.destination = None;
            Departure::Stay
        },
        None => {
            let destination = pause.destination;
            pause.destination = None;
            match destination {
                Some(Destination::Menu) => Departure::ToMenu,
                Some(Destination::Quit) => Departure::Quit,
                None => Departure::Stay,
            }
        },
    }
}

/// Horizontal radius, in chunks, of the area that must be loaded before play
/// starts.
pub open spec fn spawn_radius(render_distance: i32) -> int {
    clamp_int(render_distance as int, 0, 1)
}

/// Chunk layer `cy` is within the world's vertical limits.
pub open spec fn layer_in_world(cy: int, settings: GenerationSettings) -> bool {
    settings.world_min_y as int / 16 <= cy <= (settings.world_max_y as int - 1) / 16
}

/// Chunk layer `center.y + dy` of column `(dx, dz)` is loaded, or lies
/// outside the world's vertical limits.
pub open spec fn spawn_layer_ready(
    center: ChunkPos,
    dx: int,
    dz: int,
    dy: int,
    settings: GenerationSettings,
    loaded: Map<ChunkPos, ChunkView>,
) -> bool {
    ||| !layer_in_world(center.y + dy, settings)
    ||| loaded.contains_key(
        ChunkPos { x: (center.x + dx) as i32, y: (center.y + dy) as i32, z: (center.z + dz) as i32 },
    )
}

/// The two chunk layers at and below the player in column `(dx, dz)` are
/// ready; columns outside the render circle do not count.
pub open spec fn spawn_column_ready(
    center: ChunkPos,
    dx: int,
    dz: int,
    settings: GenerationSettings,
    loaded: Map<ChunkPos, ChunkView>,
) -> bool {
    ||| dx * dx + dz * dz > settings.render_distance_chunks * settings.render_distance_chunks
    ||| spawn_layer_ready(center, dx, dz, -1, settings, loaded) && spawn_layer_ready(
        center,
        dx,
        dz,
        0,
        settings,
        loaded,
    )
}

/// Every column of the spawn area is ready.
pub open spec fn spec_spawn_area_ready(
    center: ChunkPos,
    settings: GenerationSettings,
    loaded: Map<ChunkPos, ChunkView>,
) -> bool {
    forall|dx: int, dz: int|
        -spawn_radius(settings.render_distance_chunks) <= dx <= spawn_radius(
            settings.render_distance_chunks,
        ) && -spawn_radius(settings.render_distance_chunks) <= dz <= spawn_radius(
            settings.render_distance_chunks,
        ) ==> #[trigger] spawn_column_ready(center, dx, dz, settings, loaded)
}

fn layer_ready(
    center: ChunkPos,
    dx: i32,
    dz: i32,
    dy: i32,
    low: i32,
    high: i32,
    chunks: &ChunkStorage,
) -> (r: bool)
    requires
        -1 <= dx <= 1,
        -1 <= dz <= 1,
        -1 <= dy <= 0,
        i32::MIN < center.x < i32::MAX,
        i32::MIN < center.y,
        i32::MIN < center.z < i32::MAX,
    ensures
        r == (center.y + dy < low || center.y + dy > high || chunks@.contains_key(
            ChunkPos { x: (center.x + dx) as i32, y: (center.y + dy) as i32, z: (center.z + dz) as i32 },
        )),
{
    let cy = center.y + dy;
    cy < low || cy > high || chunks.contains_chunk(ChunkPos::new(center.x + dx, cy, center.z + dz))
}

/// Whether the chunks around the player's chunk `center` are loaded, so that
/// play can start without the player falling into unloaded terrain.
pub fn spawn_area_ready(center: ChunkPos, settings: &GenerationSettings, chunks: &ChunkStorage) -> (r:
    bool)
    requires
        i32::MIN < center.x < i32::MAX,
        i32::MIN < center.y,
        i32::MIN < center.z < i32::MAX,
        settings.world_max_y > i32::MIN,
        -46340 <= settings.render_distance_chunks <= 46340,
    ensures
        r == spec_spawn_area_ready(center, *settings, chunks@),
{
    let radius: i32 = if settings.render_distance_chunks < 0 {
        0
    } else if settings.render_distance_chunks > 1 {
        1
    } else {
        settings.render_distance_chunks
    };
    let low = settings.world_min_y.checked_div_euclid(16).unwrap();
    let high = (settings.world_max_y - 1).checked_div_euclid(16).unwrap();
    let distance = settings.render_distance_chunks;
    assert(0 <= distance * distance <= 2147395600) by (nonlinear_arith)
        requires
            -46340 <= distance <= 46340,
    ;
    let reach = distance * distance;
    let mut dx: i32 = -radius;
    while dx <= radius
        invariant
            radius == spawn_radius(settings.render_distance_chunks),
            -radius <= dx <= radius + 1,
            low == settings.world_min_y as int / 16,
            high == (settings.world_max_y as int - 1) / 16,
            reach == settings.render_distance_chunks * settings.render_distance_chunks,
            i32::MIN < center.x < i32::MAX,
            i32::MIN < center.y,
            i32::MIN < center.z < i32::MAX,
            forall|x: int, z: int|
                -radius <= x < dx && -radius <= z <= radius ==> #[trigger] spawn_column_ready(
                    center,
                    x,
                    z,
                    *settings,
                    chunks@,
                ),
        decreases radius + 1 - dx,
    {
        let mut dz: i32 = -radius;
        while dz <= radius
            invariant
                radius == spawn_radius(settings.render_distance_chunks),
                -radius <= dx <= radius,
                -radius <= dz <= radius + 1,
                low == settings.world_min_y as int / 16,
                high == (settings.world_max_y as int - 1) / 16,
                reach == settings.render_distance_chunks * settings.render_distance_chunks,
                i32::MIN < center.x < i32::MAX,
                i32::MIN < center.y,
                i32::MIN < center.z < i32::MAX,
                forall|x: int, z: int|
                    -radius <= x < dx && -radius <= z <= radius ==> #[trigger] spawn_column_ready(
                        center,
                        x,
                        z,
                        *settings,
                        chunks@,
                    ),
                forall|z: int| -radius <= z < dz ==> #[trigger] spawn_column_ready(
                    center,
                    dx as int,
                    z,
                    *settings,
                    chunks@,
                ),
            decreases radius + 1 - dz,
        {
            assert(0 <= dx * dx <= 1 && 0 <= dz * dz <= 1) by (nonlinear_arith)
                requires
                    -1 <= dx <= 1,
                    -1 <= dz <= 1,
            ;
            if dx * dx + dz * dz <= reach {
                let below = layer_ready(center, dx, dz, -1, low, high, chunks);
                let level = layer_ready(center, dx, dz, 0, low, high, chunks);
                if !(below && level) {
                    assert(!spawn_column_ready(center, dx as int, dz as int, *settings, chunks@));
                    assert(-radius <= dx <= radius && -radius <= dz <= radius);
                    return false;
                }
            }
            dz = dz + 1;
        }
        dx = dx + 1;
    }
    true
}

/// Play may start exactly when, in every column at most one chunk away from
/// the player's chunk horizontally (none when the render distance is not
/// positive) and inside the render circle, both the player's chunk layer and
/// the layer below it are loaded wherever they lie within the world's
/// vertical limits.
pub proof fn lemma_spawn_area_is_both_layers(
    center: ChunkPos,
    settings: GenerationSettings,
    loaded: Map<ChunkPos, ChunkView>,
)
    ensures
        spec_spawn_area_ready(center, settings, loaded) <==> (forall|dx: int, dz: int, dy: int|
            {
                let reach: int = if settings.render_distance_chunks <= 0 {
                    0
                } else {
                    1
                };
                &&& -reach <= dx <= reach
                &&& -reach <= dz <= reach
                &&& dx * dx + dz * dz <= settings.render_distance_chunks
                    * settings.render_distance_chunks
                &&& -1 <= dy <= 0
                &&& settings.world_min_y as int / 16 <= center.y + dy
                &&& center.y + dy <= (settings.world_max_y as int - 1) / 16
            } ==> #[trigger] loaded.contains_key(
                ChunkPos {
                    x: (center.x + dx) as i32,
                    y: (center.y + dy) as i32,
                    z: (center.z + dz) as i32,
                },
            )),
{
    let reach: int = if settings.render_distance_chunks <= 0 {
        0
    } else {
        1
    };
    assert(spawn_radius(settings.render_distance_chunks) == reach);
    if spec_spawn_area_ready(center, settings, loaded) {
        assert forall|dx: int, dz: int, dy: int|
            {
                &&& -reach <= dx <= reach
                &&& -reach <= dz <= reach
                &&& dx * dx + dz * dz <= settings.render_distance_chunks
                    * settings.render_distance_chunks
                &&& -1 <= dy <= 0
                &&& settings.world_min_y as int / 16 <= center.y + dy
                &&& center.y + dy <= (settings.world_max_y as int - 1) / 16
            } implies #[trigger] loaded.contains_key(
            ChunkPos {
                x: (center.x + dx) as i32,
                y: (center.y + dy) as i32,
                z: (center.z + dz) as i32,
            },
        ) by {
            assert(spawn_column_ready(center, dx, dz, settings, loaded));
            if dy == -1 {
                assert(spawn_layer_ready(center, dx, dz, -1, settings, loaded));
            } else {
                assert(spawn_layer_ready(center, dx, dz, 0, settings, loaded));
            }
        }
    }
    if forall|dx: int, dz: int, dy: int|
        {
            &&& -reach <= dx <= reach
            &&& -reach <= dz <= reach
            &&& dx * dx + dz * dz <= settings.render_distance_chunks * settings.render_distance_chunks
            &&& -1 <= dy <= 0
            &&& settings.world_min_y as int / 16 <= center.y + dy
            &&& center.y + dy <= (settings.world_max_y as int - 1) / 16
        } ==> #[trigger] loaded.contains_key(
            ChunkPos {
                x: (center.x + dx) as i32,
                y: (center.y + dy) as i32,
                z: (center.z + dz) as i32,
            },
        ) {
        assert forall|dx: int, dz: int|
            -spawn_radius(settings.render_distance_chunks) <= dx <= spawn_radius(
                settings.render_distance_chunks,
            ) && -spawn_radius(settings.render_distance_chunks) <= dz <= spawn_radius(
                settings.render_distance_chunks,
            ) implies #[trigger] spawn_column_ready(center, dx, dz, settings, loaded) by {
            if dx * dx + dz * dz <= settings.render_distance_chunks * settings.render_distance_chunks {
                if layer_in_world(center.y - 1, settings) {
                    assert(loaded.contains_key(
                        ChunkPos {
                            x: (center.x + dx) as i32,
                            y: (center.y + -1) as i32,
                            z: (center.z + dz) as i32,
                        },
                    ));
                }
                if layer_in_world(center.y + 0, settings) {
                    assert(loaded.contains_key(
                        ChunkPos {
                            x: (center.x + dx) as i32,
                            y: (center.y + 0) as i32,
                            z: (center.z + dz) as i32,
                        },
                    ));
                }
            }
        }
    }
}

} // verus!
