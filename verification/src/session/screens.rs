//! Screens: which mode each is driven at, which controller drives it, and when it is drawn.

use crate::layout::geometry::{fits_i32, Rect};
use crate::text::{
    chars_of, concat3, cut, lowered, natural_value, parse_natural, part, spells, split_once,
    string_of, to_lower, trim, trimmed,
};
use vstd::prelude::*;

verus! {

/// What the display mode setting asks for.
#[derive(Debug, Clone, Copy, PartialEq, Eq, Structural)]
pub enum ModeChoice {
    /// Whatever the screen says it prefers.
    Preferred,
    /// A size, and optionally a refresh rate.
    Size {
        /// Width in pixels.
        width: u16,
        /// Height in pixels.
        height: u16,
        /// Refresh rate in thousandths of a hertz, when the setting named one.
        refresh: Option<i64>,
    },
}

/// True for a setting that leaves the choice to the screen.
pub open spec fn is_preferred(text: Seq<char>) -> bool {
    text.len() == 0 || lowered(text) == "preferred"@
}

/// The place of the first letter x at or after `from`, or the end of the text.
pub open spec fn first_x(s: Seq<char>, from: int) -> int
    decreases s.len() - from,
{
    if from < 0 || from >= s.len() {
        s.len() as int
    } else if s[from] == 'x' || s[from] == 'X' {
        from
    } else {
        first_x(s, from + 1)
    }
}

/// The refresh rate that a setting names, if it names one: what stands behind the first `@`.
pub open spec fn named_rate(text: Seq<char>) -> Option<Seq<char>> {
    if is_preferred(trim(text)) {
        None
    } else {
        match cut(trim(text), '@') {
            Some((_, rate)) => Some(rate),
            None => None,
        }
    }
}

/// What a setting asks for, where `rate` is the number that its refresh rate stands for.
pub open spec fn mode_choice(text: Seq<char>, rate: Option<i64>) -> Result<ModeChoice, Seq<char>> {
    let whole = trim(text);
    if is_preferred(whole) {
        Ok(ModeChoice::Preferred)
    } else {
        let named = named_rate(text);
        let size = match cut(whole, '@') {
            Some((size, _)) => size,
            None => whole,
        };
        let at = first_x(size, 0);
        let width = size.take(at);
        let height = size.skip(at + 1);
        if named is Some && rate is None {
            Err("`"@ + named->0 + "` is not a refresh rate in Hz"@)
        } else if at >= size.len() {
            Err("`"@ + whole + "` is not a size; write it like 1920x1080"@)
        } else {
            match natural_value(trim(width), u16::MAX as int) {
                None => Err("`"@ + width + "` is not a width"@),
                Some(w) => match natural_value(trim(height), u16::MAX as int) {
                    None => Err("`"@ + height + "` is not a height"@),
                    Some(h) => Ok(
                        ModeChoice::Size {
                            width: w as u16,
                            height: h as u16,
                            refresh: if named is Some {
                                rate
                            } else {
                                None
                            },
                        },
                    ),
                },
            }
        }
    }
}

fn find_x(chars: &Vec<char>) -> (r: usize)
    ensures
        r == first_x(chars@, 0),
        r <= chars@.len(),
{
    let mut i: usize = 0;
    while i < chars.len()
        invariant
            i <= chars@.len(),
            first_x(chars@, 0) == first_x(chars@, i as int),
        decreases chars@.len() - i,
    {
        if chars[i] == 'x' || chars[i] == 'X' {
            return i;
        }
        i = i + 1;
    }
    i
}

fn leaves_it_to_the_screen(chars: &Vec<char>) -> (r: bool)
    ensures
        r == is_preferred(chars@),
{
    if chars.len() == 0 {
        return true;
    }
    let lower = to_lower(chars);
    spells(&lower, "preferred")
}

fn complain(before: &str, text: &Vec<char>, after: &str) -> (r: String)
    ensures
        r@ == before@ + text@ + after@,
{
    let text = string_of(text);
    concat3(before, text.as_str(), after)
}

impl ModeChoice {
    /// The refresh rate that a setting names, as it is written, for the caller to read as a
    /// number.
    pub fn rate_text(text: &str) -> (r: Option<String>)
        ensures
            (match r {
                Some(rate) => Some(rate@),
                None => None,
            }) == (match named_rate(text@) {
                Some(rate) => Some(trim(rate)),
                None => None,
            }),
    {
        let chars = chars_of(text);
        let whole = trimmed(&chars);
        if leaves_it_to_the_screen(&whole) {
            return None;
        }
        match split_once(&whole, '@') {
            Some((_, rate)) => {
                let rate = trimmed(&rate);
                Some(string_of(&rate))
            },
            None => None,
        }
    }

    /// Parses `preferred`, `1920x1080` or `1920x1080@60`, where `rate` is the refresh rate that
    /// the setting names in thousandths of a hertz, or nothing if that is no number.
    pub fn parse(text: &str, rate: Option<i64>) -> (r: Result<Self, String>)
        ensures
            match r {
                Ok(choice) => mode_choice(text@, rate) == Ok::<ModeChoice, Seq<char>>(choice),
                Err(why) => mode_choice(text@, rate) == Err::<ModeChoice, Seq<char>>(why@),
            },
    {
        let chars = chars_of(text);
        let whole = trimmed(&chars);
        if leaves_it_to_the_screen(&whole) {
            return Ok(ModeChoice::Preferred);
        }
        let parts = split_once(&whole, '@');
        let (size, refresh) = match parts {
            Some((size, named)) => {
                if rate.is_none() {
                    return Err(complain("`", &named, "` is not a refresh rate in Hz"));
                }
                (size, rate)
            },
            None => {
                let n = whole.len();
                let size = part(&whole, 0, n);
                assert(size@ =~= whole@);
                (size, None)
            },
        };
        let at: usize = find_x(&size);
        if at >= size.len() {
            return Err(complain("`", &whole, "` is not a size; write it like 1920x1080"));
        }
        let width = part(&size, 0, at);
        let height = part(&size, at + 1, size.len());
        proof {
            assert(width@ =~= size@.take(at as int));
            assert(height@ =~= size@.skip(at + 1));
        }
        let width_word = trimmed(&width);
        let height_word = trimmed(&height);
        let w: u32 = match parse_natural(&width_word, 0xffff) {
            Some(w) => w,
            None => {
                return Err(complain("`", &width, "` is not a width"));
            },
        };
        let h: u32 = match parse_natural(&height_word, 0xffff) {
            Some(h) => h,
            None => {
                return Err(complain("`", &height, "` is not a height"));
            },
        };
        Ok(ModeChoice::Size { width: w as u16, height: h as u16, refresh })
    }
}

/// The parts of a mode that choosing one looks at.
#[derive(Debug, Clone, Copy, PartialEq, Eq, Structural)]
pub struct ModeInfo {
    /// Width in pixels.
    pub width: u16,
    /// Height in pixels.
    pub height: u16,
    /// Refresh rate in Hz.
    pub refresh: u32,
    /// The screen says that this is the one it wants.
    pub preferred: bool,
}

impl ModeInfo {
    /// How good the refresh rate of a mode is: the nearer to the one that is wanted the better,
    /// or the higher the better when none is.
    pub open spec fn rate_score(self, wanted: Option<i64>) -> int {
        match wanted {
            Some(wanted) => {
                let d = self.refresh * 1000 - wanted;
                if d < 0 {
                    d
                } else {
                    -d
                }
            },
            None => self.refresh as int,
        }
    }

    /// How many pixels a mode shows.
    pub open spec fn pixels(self) -> int {
        self.width * self.height
    }

    /// True when a mode is at least as good as another: by its pixels, then by its refresh rate.
    pub open spec fn as_good_as(self, other: ModeInfo, wanted: Option<i64>) -> bool {
        ||| self.pixels() > other.pixels()
        ||| self.pixels() == other.pixels() && self.rate_score(wanted) >= other.rate_score(wanted)
    }

    /// True when a mode has a size.
    pub open spec fn has_size(self, width: u16, height: u16) -> bool {
        self.width == width && self.height == height
    }

    /// True when a mode fits inside a size.
    pub open spec fn fits_in(self, width: u16, height: u16) -> bool {
        self.width <= width && self.height <= height
    }

    fn rate_points(self, wanted: Option<i64>) -> (r: i128)
        ensures
            r == self.rate_score(wanted),
    {
        match wanted {
            Some(wanted) => {
                let d: i128 = self.refresh as i128 * 1000 - wanted as i128;
                if d < 0 {
                    d
                } else {
                    -d
                }
            },
            None => self.refresh as i128,
        }
    }

    fn is_as_good_as(self, other: ModeInfo, wanted: Option<i64>) -> (r: bool)
        ensures
            r == self.as_good_as(other, wanted),
    {
        assert(0 <= self.width * self.height <= 0xffff * 0xffff) by (nonlinear_arith)
            requires
                0 <= self.width <= 0xffff,
                0 <= self.height <= 0xffff,
        ;
        assert(0 <= other.width * other.height <= 0xffff * 0xffff) by (nonlinear_arith)
            requires
                0 <= other.width <= 0xffff,
                0 <= other.height <= 0xffff,
        ;
        let pixels: u64 = self.width as u64 * self.height as u64;
        let others: u64 = other.width as u64 * other.height as u64;
        if pixels != others {
            return pixels > others;
        }
        self.rate_points(wanted) >= other.rate_points(wanted)
    }
}

/// The first of `modes[from..]` that the screen prefers.
pub open spec fn preferred_from(modes: Seq<ModeInfo>, from: int) -> Option<int>
    decreases modes.len() - from,
{
    if from < 0 || from >= modes.len() {
        None
    } else if modes[from].preferred {
        Some(from)
    } else {
        preferred_from(modes, from + 1)
    }
}

/// The screen's own preference: the first mode that it prefers, else the first that it has.
pub open spec fn preference(modes: Seq<ModeInfo>) -> Option<int> {
    match preferred_from(modes, 0) {
        Some(i) => Some(i),
        None => if modes.len() == 0 {
            None
        } else {
            Some(0)
        },
    }
}

/// True when a mode may be chosen: one of exactly the size, or one that fits inside it.
pub open spec fn is_candidate(mode: ModeInfo, width: u16, height: u16, exact: bool) -> bool {
    if exact {
        mode.has_size(width, height)
    } else {
        mode.fits_in(width, height)
    }
}

/// The best of the first `n` modes that may be chosen, the last of equals.
pub open spec fn best_among(
    modes: Seq<ModeInfo>,
    width: u16,
    height: u16,
    exact: bool,
    wanted: Option<i64>,
    n: int,
) -> Option<int>
    decreases n,
{
    if n <= 0 {
        None
    } else {
        let before = best_among(modes, width, height, exact, wanted, n - 1);
        if !is_candidate(modes[n - 1], width, height, exact) {
            before
        } else {
            match before {
                None => Some(n - 1),
                Some(i) => if modes[n - 1].as_good_as(modes[i], wanted) {
                    Some(n - 1)
                } else {
                    before
                },
            }
        }
    }
}

/// The mode to drive a screen at: the best of the exact size, all of which have as many pixels;
/// else the largest that fits inside it; else the screen's own preference.
pub open spec fn chosen_mode(modes: Seq<ModeInfo>, choice: ModeChoice) -> Option<int> {
    match choice {
        ModeChoice::Preferred => preference(modes),
        ModeChoice::Size { width, height, refresh } => {
            let n = modes.len() as int;
            let exact = best_among(modes, width, height, true, refresh, n);
            let fitting = best_among(modes, width, height, false, refresh, n);
            if exact is Some {
                exact
            } else if fitting is Some {
                fitting
            } else {
                preference(modes)
            }
        },
    }
}

fn find_preference(modes: &Vec<ModeInfo>) -> (r: Option<usize>)
    ensures
        (match r {
            Some(i) => Some(i as int),
            None => None,
        }) == preference(modes@),
        r matches Some(i) ==> i < modes@.len(),
{
    let mut i: usize = 0;
    while i < modes.len()
        invariant
            i <= modes@.len(),
            preferred_from(modes@, 0) == preferred_from(modes@, i as int),
        decreases modes@.len() - i,
    {
        if modes[i].preferred {
            return Some(i);
        }
        i = i + 1;
    }
    if modes.len() == 0 {
        None
    } else {
        Some(0)
    }
}

fn find_best(
    modes: &Vec<ModeInfo>,
    width: u16,
    height: u16,
    exact: bool,
    wanted: Option<i64>,
) -> (r: Option<usize>)
    ensures
        (match r {
            Some(i) => Some(i as int),
            None => None,
        }) == best_among(modes@, width, height, exact, wanted, modes@.len() as int),
        r matches Some(i) ==> i < modes@.len(),
{
    let mut best: Option<usize> = None;
    let mut i: usize = 0;
    while i < modes.len()
        invariant
            i <= modes@.len(),
            (match best {
                Some(b) => Some(b as int),
                None => None,
            }) == best_among(modes@, width, height, exact, wanted, i as int),
            best matches Some(b) ==> b < i,
        decreases modes@.len() - i,
    {
        let mode = modes[i];
        let candidate = if exact {
            mode.width == width && mode.height == height
        } else {
            mode.width <= width && mode.height <= height
        };
        if candidate {
            match best {
                None => {
                    best = Some(i);
                },
                Some(b) => {
                    if mode.is_as_good_as(modes[b], wanted) {
                        best = Some(i);
                    }
                },
            }
        }
        i = i + 1;
    }
    best
}

/// Picks the mode to drive a screen at.
///
/// An exact size wins; the closest refresh rate among those, or the highest when the setting did
/// not name one. Failing that, the largest mode that fits inside the size, so that a monitor
/// asked for 1920x1080 that only offers 1680x1050 still gets something sensible. Failing that,
/// the screen's own preference.
pub fn choose_mode(modes: &Vec<ModeInfo>, choice: &ModeChoice) -> (r: Option<usize>)
    ensures
        (match r {
            Some(i) => Some(i as int),
            None => None,
        }) == chosen_mode(modes@, *choice),
        r matches Some(i) ==> i < modes@.len(),
{
    match *choice {
        ModeChoice::Preferred => find_preference(modes),
        ModeChoice::Size { width, height, refresh } => {
            let exact = find_best(modes, width, height, true, refresh);
            if exact.is_some() {
                return exact;
            }
            let fitting = find_best(modes, width, height, false, refresh);
            if fitting.is_some() {
                return fitting;
            }
            find_preference(modes)
        },
    }
}

/// The mode that a screen has to be switched to, if it is on another. A screen may list one mode
/// more than once: `current` are the places of the mode that it is on.
pub fn mode_to_set(
    modes: &Vec<ModeInfo>,
    choice: &ModeChoice,
    current: &Vec<usize>,
) -> (r: Option<usize>)
    ensures
        (match r {
            Some(i) => Some(i as int),
            None => None,
        }) == (match chosen_mode(modes@, *choice) {
            Some(i) => if current@.contains(i as usize) {
                None
            } else {
                Some(i)
            },
            None => None,
        }),
        r matches Some(i) ==> i < modes@.len(),
{
    match choose_mode(modes, choice) {
        None => None,
        Some(i) => {
            let mut k: usize = 0;
            while k < current.len()
                invariant
                    k <= current@.len(),
                    chosen_mode(modes@, *choice) == Some(i as int),
                    forall|j: int| 0 <= j < k ==> current@[j] != i,
                decreases current@.len() - k,
            {
                if current[k] == i {
                    return None;
                }
                k = k + 1;
            }
            Some(i)
        },
    }
}

proof fn best_is_best(
    modes: Seq<ModeInfo>,
    width: u16,
    height: u16,
    exact: bool,
    wanted: Option<i64>,
    n: int,
)
    requires
        0 <= n <= modes.len(),
    ensures
        match best_among(modes, width, height, exact, wanted, n) {
            Some(i) => {
                &&& 0 <= i < n
                &&& is_candidate(modes[i], width, height, exact)
                &&& forall|j: int|
                    0 <= j < n && is_candidate(#[trigger] modes[j], width, height, exact)
                        ==> modes[i].as_good_as(modes[j], wanted)
            },
            None => forall|j: int|
                0 <= j < n ==> !is_candidate(#[trigger] modes[j], width, height, exact),
        },
    decreases n,
{
    if n > 0 {
        best_is_best(modes, width, height, exact, wanted, n - 1);
    }
}

/// A screen that has a mode of the size asked for gets one of that size, and among those none
/// has a better refresh rate. A screen that has none, but one that fits, gets the largest that
/// fits. A screen with modes always gets one.
pub proof fn the_size_asked_for_wins(
    modes: Seq<ModeInfo>,
    width: u16,
    height: u16,
    refresh: Option<i64>,
    k: int,
)
    requires
        0 <= k < modes.len(),
    ensures
        ({
            let chosen = chosen_mode(modes, ModeChoice::Size { width, height, refresh });
            &&& chosen is Some
            &&& 0 <= chosen->0 < modes.len()
            &&& modes[k].has_size(width, height) ==> modes[chosen->0].has_size(width, height)
                && modes[chosen->0].rate_score(refresh) >= modes[k].rate_score(refresh)
            &&& modes[k].fits_in(width, height) ==> modes[chosen->0].fits_in(width, height)
                && modes[chosen->0].pixels() >= modes[k].pixels()
        }),
{
    let n = modes.len() as int;
    best_is_best(modes, width, height, true, refresh, n);
    best_is_best(modes, width, height, false, refresh, n);
    preferred_is_inside(modes, 0);
    assert(is_candidate(modes[k], width, height, true) == modes[k].has_size(width, height));
    assert(is_candidate(modes[k], width, height, false) == modes[k].fits_in(width, height));
    if modes[k].fits_in(width, height) {
        assert(modes[k].width * modes[k].height <= width * height) by (nonlinear_arith)
            requires
                0 <= modes[k].width <= width,
                0 <= modes[k].height <= height,
        ;
    }
}

proof fn preferred_is_inside(modes: Seq<ModeInfo>, from: int)
    requires
        0 <= from,
    ensures
        preferred_from(modes, from) matches Some(i) ==> from <= i < modes.len()
            && modes[i].preferred,
    decreases modes.len() - from,
{
    if from < modes.len() {
        preferred_is_inside(modes, from + 1);
    }
}

/// A screen: the controller that drives it, and the connector that it is plugged into.
#[derive(Debug, Clone, Copy, PartialEq, Eq, Structural)]
pub struct ScreenPort {
    pub controller: u32,
    pub connector: u32,
}

/// The controllers of those of the first `n` screens whose connector is no longer connected.
pub open spec fn unplugged(screens: Seq<ScreenPort>, connected: Seq<u32>, n: int) -> Seq<u32>
    decreases n,
{
    if n <= 0 {
        Seq::empty()
    } else {
        let before = unplugged(screens, connected, n - 1);
        if connected.contains(screens[n - 1].connector) {
            before
        } else {
            before.push(screens[n - 1].controller)
        }
    }
}

fn has_number(numbers: &Vec<u32>, number: u32) -> (r: bool)
    ensures
        r == numbers@.contains(number),
{
    let mut i: usize = 0;
    while i < numbers.len()
        invariant
            i <= numbers@.len(),
            forall|j: int| 0 <= j < i ==> numbers@[j] != number,
        decreases numbers@.len() - i,
    {
        if numbers[i] == number {
            return true;
        }
        i = i + 1;
    }
    false
}

/// The screens to be dropped because their monitor was unplugged, by controller.
pub fn screens_gone(screens: &Vec<ScreenPort>, connected: &Vec<u32>) -> (r: Vec<u32>)
    ensures
        r@ == unplugged(screens@, connected@, screens@.len() as int),
{
    let mut out: Vec<u32> = Vec::new();
    let mut i: usize = 0;
    while i < screens.len()
        invariant
            i <= screens@.len(),
            out@ == unplugged(screens@, connected@, i as int),
        decreases screens@.len() - i,
    {
        if !has_number(connected, screens[i].connector) {
            out.push(screens[i].controller);
        }
        i = i + 1;
    }
    out
}

/// True when a screen is driven by a controller.
pub open spec fn is_taken(screens: Seq<ScreenPort>, controller: u32) -> bool {
    exists|i: int| 0 <= i < screens.len() && (#[trigger] screens[i]).controller == controller
}

/// True when a connector has a screen.
pub open spec fn has_screen(screens: Seq<ScreenPort>, connector: u32) -> bool {
    exists|i: int| 0 <= i < screens.len() && (#[trigger] screens[i]).connector == connector
}

/// The first of `possible[from..]` that no screen is using.
pub open spec fn free_controller(
    screens: Seq<ScreenPort>,
    possible: Seq<u32>,
    from: int,
) -> Option<u32>
    decreases possible.len() - from,
{
    if from < 0 || from >= possible.len() {
        None
    } else if is_taken(screens, possible[from]) {
        free_controller(screens, possible, from + 1)
    } else {
        Some(possible[from])
    }
}

/// What to do with a connected connector.
#[derive(Debug, Clone, Copy, PartialEq, Eq, Structural)]
pub enum Plugged {
    /// It has a screen already.
    Known,
    /// A screen is to be set up on this controller.
    Use(u32),
    /// No controller is free.
    NoController,
}

/// Decides what to do with a connected connector that can use some controllers, in the order in
/// which they are to be tried.
pub fn place_screen(screens: &Vec<ScreenPort>, connector: u32, possible: &Vec<u32>) -> (r: Plugged)
    ensures
        r == (if has_screen(screens@, connector) {
            Plugged::Known
        } else {
            match free_controller(screens@, possible@, 0) {
                Some(controller) => Plugged::Use(controller),
                None => Plugged::NoController,
            }
        }),
{
    let mut i: usize = 0;
    while i < screens.len()
        invariant
            i <= screens@.len(),
            forall|j: int| 0 <= j < i ==> (#[trigger] screens@[j]).connector != connector,
        decreases screens@.len() - i,
    {
        if screens[i].connector == connector {
            return Plugged::Known;
        }
        i = i + 1;
    }
    let mut k: usize = 0;
    while k < possible.len()
        invariant
            k <= possible@.len(),
            !has_screen(screens@, connector),
            free_controller(screens@, possible@, 0) == free_controller(
                screens@,
                possible@,
                k as int,
            ),
        decreases possible@.len() - k,
    {
        let mut taken = false;
        let mut j: usize = 0;
        while j < screens.len() && !taken
            invariant
                j <= screens@.len(),
                k < possible@.len(),
                taken ==> is_taken(screens@, possible@[k as int]),
                !taken ==> forall|m: int|
                    0 <= m < j ==> (#[trigger] screens@[m]).controller != possible@[k as int],
            decreases
                    screens@.len() - j + if taken {
                        0int
                    } else {
                        1int
                    },
        {
            if screens[j].controller == possible[k] {
                taken = true;
            }
            j = j + 1;
        }
        if !taken {
            return Plugged::Use(possible[k]);
        }
        k = k + 1;
    }
    Plugged::NoController
}

/// A controller that is handed out is one that the connector can use and that no screen has.
pub proof fn controllers_are_not_shared(screens: Seq<ScreenPort>, possible: Seq<u32>, from: int)
    requires
        0 <= from,
    ensures
        free_controller(screens, possible, from) matches Some(controller) ==> !is_taken(
            screens,
            controller,
        ) && possible.contains(controller),
    decreases possible.len() - from,
{
    if from < possible.len() {
        controllers_are_not_shared(screens, possible, from + 1);
        assert(possible.contains(possible[from]));
    }
}

/// The right edge of the first `n` screens, zero if there is none.
pub open spec fn right_edge(screens: Seq<Rect>, n: int) -> Option<int>
    decreases n,
{
    if n <= 0 {
        None
    } else {
        let edge = screens[n - 1].x + screens[n - 1].w;
        match right_edge(screens, n - 1) {
            Some(before) => if before > edge {
                Some(before)
            } else {
                Some(edge)
            },
            None => Some(edge),
        }
    }
}

/// Where a new screen goes: screens sit side by side, in the order in which they were found.
pub fn next_screen_x(screens: &Vec<Rect>) -> (r: i32)
    requires
        forall|i: int|
            0 <= i < screens@.len() ==> fits_i32((#[trigger] screens@[i]).x + screens@[i].w),
    ensures
        r == (match right_edge(screens@, screens@.len() as int) {
            Some(edge) => edge,
            None => 0,
        }),
        forall|i: int| 0 <= i < screens@.len() ==> (#[trigger] screens@[i]).x + screens@[i].w <= r,
{
    let mut found: Option<i32> = None;
    let mut i: usize = 0;
    while i < screens.len()
        invariant
            i <= screens@.len(),
            forall|j: int|
                0 <= j < screens@.len() ==> fits_i32((#[trigger] screens@[j]).x + screens@[j].w),
            (match found {
                Some(edge) => Some(edge as int),
                None => None,
            }) == right_edge(screens@, i as int),
            forall|j: int|
                0 <= j < i ==> found is Some && (#[trigger] screens@[j]).x + screens@[j].w
                    <= found->0,
        decreases screens@.len() - i,
    {
        let screen = screens[i];
        assert(fits_i32(screens@[i as int].x + screens@[i as int].w));
        let edge: i32 = screen.x + screen.w;
        found =
        Some(
            match found {
                Some(before) => if before > edge {
                    before
                } else {
                    edge
                },
                None => edge,
            },
        );
        i = i + 1;
    }
    match found {
        Some(edge) => edge,
        None => 0,
    }
}

/// The area that windows are tiled in: the first screen, or nothing without one.
pub fn output_area(screens: &Vec<Rect>) -> (r: Rect)
    ensures
        screens@.len() > 0 ==> r == screens@[0],
        screens@.len() == 0 ==> r == (Rect { x: 0, y: 0, w: 0, h: 0 }),
{
    if screens.len() > 0 {
        screens[0]
    } else {
        Rect { x: 0, y: 0, w: 0, h: 0 }
    }
}

/// How long to wait before a screen is drawn again, in microseconds: one refresh at a rate in
/// thousandths of a hertz, or at sixty hertz where the rate is not known.
pub fn retry_delay(refresh: Option<i32>) -> (r: u64)
    ensures
        r as int == 1_000_000_000int / (match refresh {
            Some(rate) => if rate < 1 {
                1int
            } else {
                rate as int
            },
            None => 60_000int,
        }),
{
    let rate: u64 = match refresh {
        Some(rate) => if rate < 1 {
            1
        } else {
            rate as u64
        },
        None => 60_000,
    };
    1_000_000_000 / rate
}

/// What drawing a screen came to.
#[derive(Debug, Clone, Copy, PartialEq, Eq, Structural)]
pub enum Drawn {
    /// There is a new frame, and it was queued.
    Queued,
    /// There is a new frame, but it could not be queued.
    NotQueued,
    /// Nothing has changed.
    Unchanged,
    /// Drawing failed.
    Failed,
}

/// Whether a frame of a screen is on its way. The next one waits until it has arrived.
#[derive(Debug, Clone, Copy, PartialEq, Eq, Structural)]
pub struct FrameState {
    pub queued: bool,
}

impl FrameState {
    /// A screen of which no frame is on its way.
    pub fn new() -> (r: Self)
        ensures
            r == (FrameState { queued: false }),
    {
        FrameState { queued: false }
    }

    /// Tells whether the screen may be drawn now: while the session has the screens, and no
    /// frame is on its way.
    pub fn may_draw(self, active: bool) -> (r: bool)
        ensures
            r == (active && !self.queued),
    {
        active && !self.queued
    }

    /// Takes note of what drawing came to. Tells whether another attempt is to be made one
    /// refresh later; a frame that was queued brings the next one by itself.
    pub fn drawn(&mut self, outcome: Drawn) -> (r: bool)
        ensures
            final(self).queued == (old(self).queued || outcome == Drawn::Queued),
            r == (outcome != Drawn::Queued),
    {
        match outcome {
            Drawn::Queued => {
                self.queued = true;
                false
            },
            _ => true,
        }
    }

    /// The frame has reached the screen, or will not any more.
    pub fn arrived(&mut self)
        ensures
            !final(self).queued,
    {
        self.queued = false;
    }
}

/// How far a mode's rate is from the wanted one, in thousandths of a hertz.
pub open spec fn rate_off(mode: ModeInfo, wanted: i64) -> int {
    if mode.refresh * 1000 < wanted {
        wanted - mode.refresh * 1000
    } else {
        mode.refresh * 1000 - wanted
    }
}

/// True when a mode's rate suits at least as well as another's: closer to the rate that was asked
/// for, or as fast where none was.
pub open spec fn suits(mode: ModeInfo, other: ModeInfo, wanted: Option<i64>) -> bool {
    match wanted {
        Some(wanted) => rate_off(mode, wanted) <= rate_off(other, wanted),
        None => mode.refresh >= other.refresh,
    }
}

proof fn best_is_last(
    modes: Seq<ModeInfo>,
    width: u16,
    height: u16,
    exact: bool,
    wanted: Option<i64>,
    n: int,
)
    requires
        0 <= n <= modes.len(),
    ensures
        best_among(modes, width, height, exact, wanted, n) matches Some(i) ==> {
            &&& 0 <= i < n
            &&& is_candidate(modes[i], width, height, exact)
            &&& forall|j: int|
                0 <= j < n && is_candidate(#[trigger] modes[j], width, height, exact)
                    ==> modes[i].as_good_as(modes[j], wanted) && (i < j ==> !modes[j].as_good_as(
                    modes[i],
                    wanted,
                ))
        },
        best_among(modes, width, height, exact, wanted, n) is None ==> forall|j: int|
            0 <= j < n ==> !is_candidate(#[trigger] modes[j], width, height, exact),
    decreases n,
{
    if n > 0 {
        best_is_last(modes, width, height, exact, wanted, n - 1);
    }
}

/// The mode for a size: one of exactly that size, if the screen has one, else the largest that
/// fits into it. Of two of the same size the one whose rate suits better is taken, and of two
/// that suit alike the later.
pub proof fn the_closest_mode_is_chosen(
    modes: Seq<ModeInfo>,
    width: u16,
    height: u16,
    refresh: Option<i64>,
    k: int,
)
    requires
        0 <= k < modes.len(),
    ensures
        ({
            let at = chosen_mode(modes, ModeChoice::Size { width, height, refresh })->0;
            let mode = modes[at];
            let other = modes[k];
            &&& chosen_mode(modes, ModeChoice::Size { width, height, refresh }) is Some
            &&& 0 <= at < modes.len()
            &&& other.width == width && other.height == height ==> {
                &&& mode.width == width && mode.height == height
                &&& suits(mode, other, refresh)
                &&& suits(other, mode, refresh) ==> k <= at
            }
            &&& other.width <= width && other.height <= height ==> {
                &&& mode.width <= width && mode.height <= height
                &&& mode.width * mode.height >= other.width * other.height
                &&& !(mode.width == width && mode.height == height) && mode.width * mode.height
                    == other.width * other.height ==> {
                    &&& suits(mode, other, refresh)
                    &&& suits(other, mode, refresh) ==> k <= at
                }
            }
        }),
{
    let n = modes.len() as int;
    best_is_last(modes, width, height, true, refresh, n);
    best_is_last(modes, width, height, false, refresh, n);
    the_size_asked_for_wins(modes, width, height, refresh, k);
}

proof fn preferred_is_first(modes: Seq<ModeInfo>, from: int)
    requires
        0 <= from <= modes.len(),
    ensures
        match preferred_from(modes, from) {
            Some(i) => {
                &&& from <= i < modes.len()
                &&& modes[i].preferred
                &&& forall|j: int| from <= j < i ==> !(#[trigger] modes[j]).preferred
            },
            None => forall|j: int| from <= j < modes.len() ==> !(#[trigger] modes[j]).preferred,
        },
    decreases modes.len() - from,
{
    if from < modes.len() {
        preferred_is_first(modes, from + 1);
    }
}

/// Where no size is asked for, or none of the screen's fits into it, the screen has its first
/// preferred mode, and the first of all if it prefers none. A screen without modes has none.
pub proof fn else_the_screen_decides(
    modes: Seq<ModeInfo>,
    width: u16,
    height: u16,
    refresh: Option<i64>,
    choice: ModeChoice,
    k: int,
)
    requires
        choice == ModeChoice::Preferred || choice == (ModeChoice::Size { width, height, refresh })
            && forall|j: int|
            0 <= j < modes.len() ==> (#[trigger] modes[j]).width > width || modes[j].height
                > height,
        0 <= k < modes.len(),
    ensures
        ({
            let at = chosen_mode(modes, choice)->0;
            &&& chosen_mode(modes, choice) is Some
            &&& 0 <= at < modes.len()
            &&& modes[k].preferred ==> modes[at].preferred && at <= k
            &&& !modes[at].preferred ==> at == 0
            &&& chosen_mode(Seq::empty(), choice) is None
        }),
{
    let n = modes.len() as int;
    preferred_is_first(modes, 0);
    best_is_best(modes, width, height, true, refresh, n);
    best_is_best(modes, width, height, false, refresh, n);
    if choice is Size {
        let exact = best_among(modes, width, height, true, refresh, n);
        let fitting = best_among(modes, width, height, false, refresh, n);
        if exact is Some {
            assert(modes[exact->0].width == width);
        }
        if fitting is Some {
            assert(modes[fitting->0].width <= width);
        }
    }
    let none = Seq::<ModeInfo>::empty();
    assert(preferred_from(none, 0) is None);
}

/// The controllers of screens that are no longer connected are given up, in the order of the
/// screens, and no others.
pub proof fn unplugged_screens_are_given_up(screens: Seq<ScreenPort>, connected: Seq<u32>)
    ensures
        unplugged(screens, connected, screens.len() as int) == screens.filter(
            |port: ScreenPort| !connected.contains(port.connector),
        ).map_values(|port: ScreenPort| port.controller),
{
    unplugged_so_far(screens, connected, screens.len() as int);
    assert(screens.take(screens.len() as int) =~= screens);
}

proof fn unplugged_so_far(screens: Seq<ScreenPort>, connected: Seq<u32>, n: int)
    requires
        0 <= n <= screens.len(),
    ensures
        unplugged(screens, connected, n) == screens.take(n).filter(
            |port: ScreenPort| !connected.contains(port.connector),
        ).map_values(|port: ScreenPort| port.controller),
    decreases n,
{
    reveal(Seq::filter);
    let kept = |port: ScreenPort| !connected.contains(port.connector);
    let number = |port: ScreenPort| port.controller;
    if n > 0 {
        unplugged_so_far(screens, connected, n - 1);
        assert(screens.take(n).drop_last() =~= screens.take(n - 1));
        assert(screens.take(n).last() == screens[n - 1]);
        let before = screens.take(n - 1).filter(kept);
        assert(before.push(screens[n - 1]).map_values(number) =~= before.map_values(number).push(
            screens[n - 1].controller,
        ));
    } else {
        assert(screens.take(0).filter(kept).map_values(number) =~= Seq::empty());
    }
}

/// A new screen gets the first controller that can drive it and drives no other screen, and none
/// only when all of them do.
pub proof fn the_first_free_controller_is_taken(
    screens: Seq<ScreenPort>,
    possible: Seq<u32>,
    from: int,
    k: int,
)
    requires
        0 <= from <= k < possible.len(),
        forall|i: int| 0 <= i < screens.len() ==> (#[trigger] screens[i]).controller != possible[k],
    ensures
        free_controller(screens, possible, from) is Some,
        exists|i: int|
            from <= i <= k && #[trigger] possible[i] == free_controller(screens, possible, from)->0,
        forall|i: int|
            0 <= i < screens.len() ==> (#[trigger] screens[i]).controller != free_controller(
                screens,
                possible,
                from,
            )->0,
        (forall|j: int| from <= j < k ==> is_taken(screens, #[trigger] possible[j]))
            ==> free_controller(screens, possible, from) == Some(possible[k]),
    decreases k - from,
{
    controllers_are_not_shared(screens, possible, from);
    if from < k && is_taken(screens, possible[from]) {
        the_first_free_controller_is_taken(screens, possible, from + 1, k);
    } else {
        assert(possible[from] == free_controller(screens, possible, from)->0);
    }
}

/// The next screen starts where the rightmost of the others ends.
pub proof fn the_right_edge_is_the_rightmost(screens: Seq<Rect>, n: int)
    requires
        0 < n <= screens.len(),
    ensures
        right_edge(screens, n) is Some,
        forall|i: int|
            0 <= i < n ==> (#[trigger] screens[i]).x + screens[i].w <= right_edge(screens, n)->0,
        exists|i: int|
            0 <= i < n && (#[trigger] screens[i]).x + screens[i].w == right_edge(screens, n)->0,
    decreases n,
{
    if n > 1 {
        the_right_edge_is_the_rightmost(screens, n - 1);
        let i = choose|i: int|
            0 <= i < n - 1 && (#[trigger] screens[i]).x + screens[i].w == right_edge(
                screens,
                n - 1,
            )->0;
        assert(screens[i].x + screens[i].w == right_edge(screens, n - 1)->0);
    }
    assert(screens[n - 1].x + screens[n - 1].w <= right_edge(screens, n)->0);
}

proof fn digits_stay(s: Seq<char>)
    requires
        crate::text::all_digits(s),
    ensures
        trim(s) == s,
        first_x(s, 0) == s.len(),
        !s.contains('@'),
        natural_value(s, u16::MAX as int) == if crate::text::digits_value(s) <= u16::MAX {
            Some(crate::text::digits_value(s))
        } else {
            None
        },
{
    no_x(s, 0);
    assert(crate::text::is_digit(s[0]));
    assert(crate::text::is_digit(s[s.len() - 1]));
    reveal_with_fuel(crate::text::skip_spaces, 2);
    reveal_with_fuel(crate::text::before_spaces, 2);
    assert(s.subrange(0, s.len() as int) =~= s);
    if s.contains('@') {
        let i = choose|i: int| 0 <= i < s.len() && s[i] == '@';
        assert(crate::text::is_digit(s[i]));
    }
}

proof fn no_x(s: Seq<char>, from: int)
    requires
        0 <= from <= s.len(),
        crate::text::all_digits(s),
    ensures
        first_x(s, from) == s.len(),
    decreases s.len() - from,
{
    if from < s.len() {
        assert(crate::text::is_digit(s[from]));
        no_x(s, from + 1);
    }
}

proof fn x_behind(s: Seq<char>, rest: Seq<char>, from: int)
    requires
        0 <= from <= s.len(),
        crate::text::all_digits(s),
        rest.len() > 0,
        rest[0] == 'x',
    ensures
        first_x(s + rest, from) == s.len(),
    decreases s.len() - from,
{
    if from < s.len() {
        assert(crate::text::is_digit(s[from]));
        assert((s + rest)[from] == s[from]);
        x_behind(s, rest, from + 1);
    } else {
        assert((s + rest)[from] == 'x');
    }
}

/// A size is written as its width, an `x` and its height, both in decimal; a rate may follow
/// behind an `@`.
pub proof fn sizes_are_read_back(width: u16, height: u16, rate: Option<i64>, hertz: Seq<char>)
    ensures
        ({
            let size = crate::text::decimal(width as nat) + seq!['x'] + crate::text::decimal(
                height as nat,
            );
            &&& mode_choice(size, rate) == Ok::<ModeChoice, Seq<char>>(
                ModeChoice::Size { width, height, refresh: None },
            )
            &&& crate::text::all_digits(hertz) ==> {
                &&& named_rate(size + seq!['@'] + hertz) == Some(hertz)
                &&& rate is Some ==> mode_choice(size + seq!['@'] + hertz, rate) == Ok::<
                    ModeChoice,
                    Seq<char>,
                >(ModeChoice::Size { width, height, refresh: rate })
            }
        }),
{
    let w = crate::text::decimal(width as nat);
    let h = crate::text::decimal(height as nat);
    crate::text::decimal_reads_back(width as nat);
    crate::text::decimal_reads_back(height as nat);
    digits_stay(w);
    digits_stay(h);
    let size = w + seq!['x'] + h;
    size_alone(w, h, size, rate);
    if crate::text::all_digits(hertz) {
        let text = size + seq!['@'] + hertz;
        digits_stay(hertz);
        assert(crate::text::is_digit(text[0])) by {
            assert(text[0] == w[0]);
        }
        assert(crate::text::is_digit(text.last())) by {
            assert(text.last() == hertz[hertz.len() - 1]);
        }
        reveal_with_fuel(crate::text::skip_spaces, 2);
        reveal_with_fuel(crate::text::before_spaces, 2);
        assert(text.subrange(0, text.len() as int) =~= text);
        assert(trim(text) == text);
        reveal_strlit("preferred");
        assert(lowered(text)[0] == text[0]);
        assert(!is_preferred(text));
        crate::text::first_at_is_first(text, '@', 0);
        let j = crate::text::first_at(text, '@', 0);
        assert(text[size.len() as int] == '@');
        assert(j == size.len()) by {
            if j < size.len() {
                assert(text[j] == size[j]);
            }
        }
        assert(text.take(j) =~= size);
        assert(text.skip(j + 1) =~= hertz);
        assert(cut(text, '@') == Some((size, hertz)));
        let rest = seq!['x'] + h;
        assert(size =~= w + rest);
        x_behind(w, rest, 0);
        assert(size.take(w.len() as int) =~= w);
        assert(size.skip((w.len() + 1) as int) =~= h);
    }
}

proof fn size_alone(w: Seq<char>, h: Seq<char>, size: Seq<char>, rate: Option<i64>)
    requires
        crate::text::all_digits(w),
        crate::text::all_digits(h),
        size == w + seq!['x'] + h,
        natural_value(w, u16::MAX as int) is Some,
        natural_value(h, u16::MAX as int) is Some,
    ensures
        !size.contains('@'),
        mode_choice(size, rate) == Ok::<ModeChoice, Seq<char>>(
            ModeChoice::Size {
                width: natural_value(w, u16::MAX as int)->0 as u16,
                height: natural_value(h, u16::MAX as int)->0 as u16,
                refresh: None,
            },
        ),
{
    digits_stay(w);
    digits_stay(h);
    assert(size[0] == w[0] && crate::text::is_digit(w[0]));
    assert(size.last() == h[h.len() - 1] && crate::text::is_digit(h[h.len() - 1]));
    reveal_with_fuel(crate::text::skip_spaces, 2);
    reveal_with_fuel(crate::text::before_spaces, 2);
    assert(size.subrange(0, size.len() as int) =~= size);
    assert(trim(size) == size);
    reveal_strlit("preferred");
    assert(lowered(size)[0] == size[0]);
    assert(!is_preferred(size));
    if size.contains('@') {
        let i = choose|i: int| 0 <= i < size.len() && size[i] == '@';
        if i < w.len() {
            assert(w[i] == '@');
        } else if i > w.len() {
            assert(h[i - w.len() - 1] == '@');
        }
    }
    crate::text::first_at_is_first(size, '@', 0);
    assert(cut(size, '@') is None);
    let rest = seq!['x'] + h;
    assert(size =~= w + rest);
    x_behind(w, rest, 0);
    assert(size.take(w.len() as int) =~= w);
    assert(size.skip((w.len() + 1) as int) =~= h);
}

} // verus!
