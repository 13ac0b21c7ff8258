//! The keyboard between windows and layer surfaces: overlays, launchers, bars.
//!
//! Which window is focused and which layer surface holds the keyboard are kept apart, so that an
//! overlay that borrows the keyboard does not make anyone forget which window was focused.

use crate::ipc::WindowId;
use crate::layout::geometry::Rect;
use vstd::prelude::*;

verus! {

/// The layers of a screen. Windows stand between the bottom and the top layer.
#[derive(Debug, Clone, Copy, PartialEq, Eq, Structural)]
pub enum Layer {
    Background,
    Bottom,
    Top,
    Overlay,
}

/// Whether a layer surface takes the keyboard.
#[derive(Debug, Clone, Copy, PartialEq, Eq, Structural)]
pub enum KeyboardInteractivity {
    /// Never.
    Never,
    /// For as long as it is mapped.
    Exclusive,
    /// Once it has been clicked.
    OnDemand,
}

/// A layer surface.
#[derive(Debug, Clone, Copy, PartialEq, Eq, Structural)]
pub struct LayerSurface {
    /// The number by which it is told from others.
    pub id: u64,
    pub layer: Layer,
    pub keyboard: KeyboardInteractivity,
}

/// The last of `surfaces[..n]` on a layer that takes the keyboard exclusively.
pub open spec fn exclusive_on(surfaces: Seq<LayerSurface>, layer: Layer, n: int) -> Option<u64>
    decreases n,
{
    if n <= 0 {
        None
    } else if surfaces[n - 1].layer == layer && surfaces[n - 1].keyboard
        == KeyboardInteractivity::Exclusive {
        Some(surfaces[n - 1].id)
    } else {
        exclusive_on(surfaces, layer, n - 1)
    }
}

/// The surface of one screen that takes the keyboard exclusively: on the overlay layer, else on
/// the top layer, and the most recently mapped of several.
pub open spec fn exclusive_of(surfaces: Seq<LayerSurface>) -> Option<u64> {
    match exclusive_on(surfaces, Layer::Overlay, surfaces.len() as int) {
        Some(id) => Some(id),
        None => exclusive_on(surfaces, Layer::Top, surfaces.len() as int),
    }
}

/// What screens hold.
pub open spec fn screen_views(screens: Seq<Vec<LayerSurface>>) -> Seq<Seq<LayerSurface>> {
    Seq::new(screens.len(), |i: int| screens[i]@)
}

/// The surface of the screens `screens[from..]` that takes the keyboard exclusively.
pub open spec fn exclusive_among(screens: Seq<Seq<LayerSurface>>, from: int) -> Option<u64>
    decreases screens.len() - from,
{
    if from < 0 || from >= screens.len() {
        None
    } else {
        match exclusive_of(screens[from]) {
            Some(id) => Some(id),
            None => exclusive_among(screens, from + 1),
        }
    }
}

/// True when a surface is mapped on some screen and takes a keyboard at all.
pub open spec fn wants_keyboard(screens: Seq<Seq<LayerSurface>>, id: u64) -> bool {
    exists|i: int, j: int|
        0 <= i < screens.len() && 0 <= j < screens[i].len() && (#[trigger] screens[i][j]).id == id
            && screens[i][j].keyboard != KeyboardInteractivity::Never
}

/// The surface that holds the keyboard: one that takes it exclusively; else the one that held
/// it, while it is mapped and still wants it.
pub open spec fn layer_holder(screens: Seq<Seq<LayerSurface>>, holder: Option<u64>) -> Option<
    u64,
> {
    match exclusive_among(screens, 0) {
        Some(id) => Some(id),
        None => match holder {
            Some(id) => if wants_keyboard(screens, id) {
                Some(id)
            } else {
                None
            },
            None => None,
        },
    }
}

fn find_exclusive(surfaces: &Vec<LayerSurface>, layer: Layer) -> (r: Option<u64>)
    ensures
        r == exclusive_on(surfaces@, layer, surfaces@.len() as int),
{
    let mut n: usize = surfaces.len();
    while n > 0
        invariant
            n <= surfaces@.len(),
            exclusive_on(surfaces@, layer, surfaces@.len() as int) == exclusive_on(
                surfaces@,
                layer,
                n as int,
            ),
        decreases n,
    {
        let surface = surfaces[n - 1];
        if surface.layer == layer && surface.keyboard == KeyboardInteractivity::Exclusive {
            return Some(surface.id);
        }
        n = n - 1;
    }
    None
}

fn is_wanting(screens: &Vec<Vec<LayerSurface>>, id: u64) -> (r: bool)
    ensures
        r == wants_keyboard(screen_views(screens@), id),
{
    let ghost all = screen_views(screens@);
    let mut i: usize = 0;
    while i < screens.len()
        invariant
            i <= screens@.len(),
            all == screen_views(screens@),
            forall|a: int, b: int|
                0 <= a < i && 0 <= b < all[a].len() ==> !((#[trigger] all[a][b]).id == id
                    && all[a][b].keyboard != KeyboardInteractivity::Never),
        decreases screens@.len() - i,
    {
        let surfaces = &screens[i];
        assert(all[i as int] == surfaces@);
        let mut j: usize = 0;
        while j < surfaces.len()
            invariant
                j <= surfaces@.len(),
                i < screens@.len(),
                all == screen_views(screens@),
                all[i as int] == surfaces@,
                forall|b: int|
                    0 <= b < j ==> !((#[trigger] all[i as int][b]).id == id
                        && all[i as int][b].keyboard != KeyboardInteractivity::Never),
            decreases surfaces@.len() - j,
        {
            let surface = surfaces[j];
            assert(all[i as int][j as int] == surface);
            if surface.id == id {
                match surface.keyboard {
                    KeyboardInteractivity::Never => {},
                    _ => {
                        return true;
                    },
                }
            }
            j = j + 1;
        }
        i = i + 1;
    }
    false
}

/// Decides again which layer surface, if any, holds the keyboard.
///
/// A surface on the overlay or top layer that asks for it exclusively takes the keyboard for as
/// long as it is mapped; the most recently mapped one wins. One that takes it on demand keeps it
/// only once it has been clicked.
pub fn refresh_layer_focus(screens: &Vec<Vec<LayerSurface>>, holder: Option<u64>) -> (r: Option<
    u64,
>)
    ensures
        r == layer_holder(screen_views(screens@), holder),
{
    let ghost all = screen_views(screens@);
    let mut i: usize = 0;
    while i < screens.len()
        invariant
            i <= screens@.len(),
            all == screen_views(screens@),
            exclusive_among(all, 0) == exclusive_among(all, i as int),
        decreases screens@.len() - i,
    {
        assert(all[i as int] == screens@[i as int]@);
        let overlay = find_exclusive(&screens[i], Layer::Overlay);
        if overlay.is_some() {
            return overlay;
        }
        let top = find_exclusive(&screens[i], Layer::Top);
        if top.is_some() {
            return top;
        }
        i = i + 1;
    }
    match holder {
        Some(id) => {
            if is_wanting(screens, id) {
                Some(id)
            } else {
                None
            }
        },
        None => None,
    }
}

/// Gives the keyboard to a layer surface that was clicked, if it takes one.
pub fn focus_layer(
    screens: &Vec<Vec<LayerSurface>>,
    holder: Option<u64>,
    clicked: LayerSurface,
) -> (r: Option<u64>)
    ensures
        r == layer_holder(
            screen_views(screens@),
            if clicked.keyboard != KeyboardInteractivity::Never {
                Some(clicked.id)
            } else {
                holder
            },
        ),
{
    match clicked.keyboard {
        KeyboardInteractivity::Never => refresh_layer_focus(screens, holder),
        _ => refresh_layer_focus(screens, Some(clicked.id)),
    }
}

/// Where the keyboard points.
#[derive(Debug, Clone, Copy, PartialEq, Eq, Structural)]
pub enum KeyboardTarget {
    Layer(u64),
    Window(WindowId),
    Nothing,
}

/// Points the keyboard at the layer surface that holds it, else at the focused window.
pub fn keyboard_target(holder: Option<u64>, focus: Option<WindowId>) -> (r: KeyboardTarget)
    ensures
        r == (match (holder, focus) {
            (Some(id), _) => KeyboardTarget::Layer(id),
            (None, Some(window)) => KeyboardTarget::Window(window),
            (None, None) => KeyboardTarget::Nothing,
        }),
{
    match (holder, focus) {
        (Some(id), _) => KeyboardTarget::Layer(id),
        (None, Some(window)) => KeyboardTarget::Window(window),
        (None, None) => KeyboardTarget::Nothing,
    }
}

/// What a click does to the focus.
#[derive(Debug, Clone, Copy, PartialEq, Eq, Structural)]
pub enum Click {
    /// A layer surface was clicked.
    Layer(LayerSurface),
    /// A window or nothing was clicked.
    Window {
        /// What was clicked.
        window: Option<WindowId>,
        /// Whether the layer surface that holds the keyboard has to give it up.
        release_layer: bool,
        /// Whether the window is not the focused one already.
        refocus: bool,
    },
}

/// What a click does, given what is under the pointer above the windows, among them, and below
/// them.
pub open spec fn click(
    above: Option<LayerSurface>,
    window: Option<WindowId>,
    below: Option<LayerSurface>,
    exclusive: bool,
    focus: Option<WindowId>,
) -> Click {
    if above is Some {
        Click::Layer(above->0)
    } else if window is None && below is Some {
        Click::Layer(below->0)
    } else {
        Click::Window { window, release_layer: !exclusive, refocus: window != focus }
    }
}

/// Decides what was clicked.
///
/// A layer surface that takes a keyboard gets it. A click on a window focuses the window, but
/// while an overlay holds the keyboard exclusively the keyboard stays with the overlay: the
/// protocol promises it that.
pub fn click_to_focus(
    above: Option<LayerSurface>,
    window: Option<WindowId>,
    below: Option<LayerSurface>,
    exclusive: bool,
    focus: Option<WindowId>,
) -> (r: Click)
    ensures
        r == click(above, window, below, exclusive, focus),
{
    if let Some(surface) = above {
        return Click::Layer(surface);
    }
    if window.is_none() {
        if let Some(surface) = below {
            return Click::Layer(surface);
        }
    }
    let refocus = match (window, focus) {
        (Some(a), Some(b)) => a != b,
        (None, None) => false,
        _ => true,
    };
    Click::Window { window, release_layer: !exclusive, refocus }
}

/// The window that takes the focus when the pointer passes over it, if any. Passing over an
/// overlay or a bar is not passing over the window beneath it, and the launcher can be left out.
pub fn focus_under_pointer(
    layer_above: bool,
    window: Option<WindowId>,
    focus: Option<WindowId>,
    skips_launcher: bool,
    is_launcher: bool,
) -> (r: Option<WindowId>)
    ensures
        r == (if layer_above || window == focus || (skips_launcher && is_launcher) {
            None
        } else {
            window
        }),
{
    if layer_above || (skips_launcher && is_launcher) {
        return None;
    }
    match (window, focus) {
        (Some(under), Some(focused)) => {
            if under == focused {
                None
            } else {
                Some(under)
            }
        },
        _ => window,
    }
}

/// An overlay that takes the keyboard exclusively has it, whatever is clicked or focused, and
/// hands it back to the focused window when it is gone.
pub proof fn exclusive_surfaces_hold_the_keyboard(
    screens: Seq<Seq<LayerSurface>>,
    a: Option<u64>,
    b: Option<u64>,
)
    ensures
        exclusive_among(screens, 0) is Some ==> layer_holder(screens, a) == layer_holder(
            screens,
            b,
        ),
        exclusive_among(screens, 0) is None ==> layer_holder(screens, None) is None,
{
}

/// The smaller of two numbers.
pub open spec fn lesser(a: int, b: int) -> int {
    if a < b {
        a
    } else {
        b
    }
}

/// The larger of two numbers.
pub open spec fn greater(a: int, b: int) -> int {
    if a > b {
        a
    } else {
        b
    }
}

/// The edges of the smallest rectangle that holds some screens: left, top, right and bottom.
#[derive(Debug, Clone, Copy, PartialEq, Eq, Structural)]
pub struct Bounds {
    pub left: i64,
    pub top: i64,
    pub right: i64,
    pub bottom: i64,
}

/// The edges of the smallest rectangle that holds the first `n` screens.
pub open spec fn bounds_of(screens: Seq<Rect>, n: int) -> Option<Bounds>
    decreases n,
{
    if n <= 0 {
        None
    } else {
        let screen = screens[n - 1];
        Some(
            match bounds_of(screens, n - 1) {
                None => Bounds {
                    left: screen.x as i64,
                    top: screen.y as i64,
                    right: (screen.x + screen.w) as i64,
                    bottom: (screen.y + screen.h) as i64,
                },
                Some(b) => Bounds {
                    left: lesser(b.left as int, screen.x as int) as i64,
                    top: lesser(b.top as int, screen.y as int) as i64,
                    right: greater(b.right as int, screen.x + screen.w) as i64,
                    bottom: greater(b.bottom as int, screen.y + screen.h) as i64,
                },
            },
        )
    }
}

fn min(a: i64, b: i64) -> (r: i64)
    ensures
        r == lesser(a as int, b as int),
{
    if a < b {
        a
    } else {
        b
    }
}

fn max(a: i64, b: i64) -> (r: i64)
    ensures
        r == greater(a as int, b as int),
{
    if a > b {
        a
    } else {
        b
    }
}

/// The edges within which the pointer is kept, if there is a screen.
pub fn screen_bounds(screens: &Vec<Rect>) -> (r: Option<Bounds>)
    ensures
        r == bounds_of(screens@, screens@.len() as int),
{
    let mut bounds: Option<Bounds> = None;
    let mut i: usize = 0;
    while i < screens.len()
        invariant
            i <= screens@.len(),
            bounds == bounds_of(screens@, i as int),
        decreases screens@.len() - i,
    {
        let screen = screens[i];
        let left: i64 = screen.x as i64;
        let top: i64 = screen.y as i64;
        let right: i64 = left + screen.w as i64;
        let bottom: i64 = top + screen.h as i64;
        bounds =
        Some(
            match bounds {
                None => Bounds { left, top, right, bottom },
                Some(b) => Bounds {
                    left: min(b.left, left),
                    top: min(b.top, top),
                    right: max(b.right, right),
                    bottom: max(b.bottom, bottom),
                },
            },
        );
        i = i + 1;
    }
    bounds
}

/// True when a surface on a layer demands the keyboard.
pub open spec fn demands(surface: LayerSurface, layer: Layer) -> bool {
    surface.layer == layer && surface.keyboard is Exclusive
}

proof fn exclusive_is_last(surfaces: Seq<LayerSurface>, layer: Layer, n: int)
    requires
        0 <= n <= surfaces.len(),
    ensures
        match exclusive_on(surfaces, layer, n) {
            Some(id) => exists|i: int|
                0 <= i < n && #[trigger] demands(surfaces[i], layer) && surfaces[i].id == id
                    && forall|j: int| i < j < n ==> !#[trigger] demands(surfaces[j], layer),
            None => forall|j: int| 0 <= j < n ==> !#[trigger] demands(surfaces[j], layer),
        },
    decreases n,
{
    if n > 0 {
        exclusive_is_last(surfaces, layer, n - 1);
        if demands(surfaces[n - 1], layer) {
        } else {
            if let Some(id) = exclusive_on(surfaces, layer, n - 1) {
                let i = choose|i: int|
                    0 <= i < n - 1 && #[trigger] demands(surfaces[i], layer) && surfaces[i].id
                        == id && forall|j: int|
                        i < j < n - 1 ==> !#[trigger] demands(surfaces[j], layer);
                assert(demands(surfaces[i], layer));
            }
        }
    }
}

/// On a screen the keyboard belongs to the topmost surface of the overlay layer that demands it,
/// else to the topmost such surface of the top layer. Surfaces below the windows cannot demand
/// it.
pub proof fn overlays_come_before_bars(surfaces: Seq<LayerSurface>)
    ensures
        match exclusive_of(surfaces) {
            Some(id) => exists|i: int|
                {
                    &&& 0 <= i < surfaces.len()
                    &&& (#[trigger] surfaces[i]).id == id
                    &&& surfaces[i].keyboard is Exclusive
                    &&& surfaces[i].layer is Overlay || surfaces[i].layer is Top
                    &&& forall|j: int|
                        0 <= j < surfaces.len() && #[trigger] demands(surfaces[j], Layer::Overlay)
                            ==> surfaces[i].layer is Overlay && j <= i
                    &&& surfaces[i].layer is Top ==> forall|j: int|
                        0 <= j < surfaces.len() && #[trigger] demands(surfaces[j], Layer::Top)
                            ==> j <= i
                },
            None => forall|j: int|
                0 <= j < surfaces.len() ==> !#[trigger] demands(surfaces[j], Layer::Overlay)
                    && !demands(surfaces[j], Layer::Top),
        },
{
    let n = surfaces.len() as int;
    exclusive_is_last(surfaces, Layer::Overlay, n);
    exclusive_is_last(surfaces, Layer::Top, n);
    if let Some(id) = exclusive_on(surfaces, Layer::Overlay, n) {
        let i = choose|i: int|
            0 <= i < n && #[trigger] demands(surfaces[i], Layer::Overlay) && surfaces[i].id == id
                && forall|j: int|
                i < j < n ==> !#[trigger] demands(surfaces[j], Layer::Overlay);
        assert(surfaces[i].id == id);
    } else if let Some(id) = exclusive_on(surfaces, Layer::Top, n) {
        let i = choose|i: int|
            0 <= i < n && #[trigger] demands(surfaces[i], Layer::Top) && surfaces[i].id == id
                && forall|j: int| i < j < n ==> !#[trigger] demands(surfaces[j], Layer::Top);
        assert(surfaces[i].id == id);
    } else {
        assert forall|j: int| 0 <= j < n implies !#[trigger] demands(
            surfaces[j],
            Layer::Overlay,
        ) && !demands(surfaces[j], Layer::Top) by {
            assert(!demands(surfaces[j], Layer::Top));
        }
    }
}

/// Of several screens the first with a surface that demands the keyboard decides. Where none
/// has one, the surface that holds the keyboard keeps it as long as it is there and wants it.
pub proof fn the_first_screen_decides(
    screens: Seq<Seq<LayerSurface>>,
    holder: Option<u64>,
    k: int,
)
    requires
        0 <= k <= screens.len(),
        forall|i: int| 0 <= i < k ==> exclusive_of(#[trigger] screens[i]) is None,
    ensures
        k < screens.len() && exclusive_of(screens[k]) is Some ==> layer_holder(screens, holder)
            == exclusive_of(screens[k]),
        k == screens.len() ==> {
            &&& holder is None ==> layer_holder(screens, holder) is None
            &&& layer_holder(screens, holder) is Some ==> layer_holder(screens, holder) == holder
            &&& forall|i: int, j: int|
                0 <= i < screens.len() && 0 <= j < screens[i].len() && holder == Some(
                    (#[trigger] screens[i][j]).id,
                ) && !(screens[i][j].keyboard is Never) ==> layer_holder(screens, holder) == holder
            &&& (forall|i: int, j: int|
                0 <= i < screens.len() && 0 <= j < screens[i].len() ==> holder != Some(
                    (#[trigger] screens[i][j]).id,
                ) || screens[i][j].keyboard is Never) ==> layer_holder(screens, holder) is None
        },
{
    first_exclusive(screens, k, 0);
}

proof fn first_exclusive(screens: Seq<Seq<LayerSurface>>, k: int, from: int)
    requires
        0 <= from <= k <= screens.len(),
        forall|i: int| 0 <= i < k ==> exclusive_of(#[trigger] screens[i]) is None,
    ensures
        exclusive_among(screens, from) == exclusive_among(screens, k),
    decreases k - from,
{
    if from < k {
        first_exclusive(screens, k, from + 1);
    }
}

/// The bounds of the screens hold every screen, and each of the four is an edge of one.
pub proof fn bounds_hold_every_screen(screens: Seq<Rect>, n: int)
    requires
        0 < n <= screens.len(),
    ensures
        ({
            let b = bounds_of(screens, n)->0;
            &&& bounds_of(screens, n) is Some
            &&& forall|i: int|
                0 <= i < n ==> {
                    &&& b.left <= (#[trigger] screens[i]).x
                    &&& b.top <= screens[i].y
                    &&& screens[i].x + screens[i].w <= b.right
                    &&& screens[i].y + screens[i].h <= b.bottom
                }
            &&& exists|i: int| 0 <= i < n && (#[trigger] screens[i]).x == b.left
            &&& exists|i: int| 0 <= i < n && (#[trigger] screens[i]).y == b.top
            &&& exists|i: int| 0 <= i < n && (#[trigger] screens[i]).x + screens[i].w == b.right
            &&& exists|i: int| 0 <= i < n && (#[trigger] screens[i]).y + screens[i].h == b.bottom
        }),
    decreases n,
{
    if n > 1 {
        bounds_hold_every_screen(screens, n - 1);
        let b = bounds_of(screens, n - 1)->0;
        let i1 = choose|i: int| 0 <= i < n - 1 && (#[trigger] screens[i]).x == b.left;
        let i2 = choose|i: int| 0 <= i < n - 1 && (#[trigger] screens[i]).y == b.top;
        let i3 = choose|i: int|
            0 <= i < n - 1 && (#[trigger] screens[i]).x + screens[i].w == b.right;
        let i4 = choose|i: int|
            0 <= i < n - 1 && (#[trigger] screens[i]).y + screens[i].h == b.bottom;
        assert(screens[i1].x == b.left && screens[i2].y == b.top);
        assert(screens[i3].x + screens[i3].w == b.right);
        assert(screens[i4].y + screens[i4].h == b.bottom);
    }
    let last = screens[n - 1];
    assert(last.x == screens[n - 1].x);
}

/// A click goes to what is on top: a surface above the windows, else a window, else a surface
/// below them. On a window it gives up the keyboard of a surface that does not demand it, and
/// hands the focus over only to a window that does not have it.
pub proof fn clicks_go_to_what_is_on_top(
    above: LayerSurface,
    window: WindowId,
    below: LayerSurface,
    exclusive: bool,
    focus: Option<WindowId>,
)
    ensures
        click(Some(above), Some(window), Some(below), exclusive, focus) == Click::Layer(above),
        click(None, None, Some(below), exclusive, focus) == Click::Layer(below),
        click(None, Some(window), Some(below), exclusive, focus) matches Click::Window {
            window: at,
            release_layer,
            refocus,
        } && at == Some(window) && release_layer == !exclusive && (refocus <==> focus != Some(
            window,
        )),
        click(None, None, None, exclusive, focus) matches Click::Window {
            window: at,
            release_layer,
            refocus,
        } && at is None && release_layer == !exclusive && (refocus <==> focus is Some),
{
}

} // verus!
