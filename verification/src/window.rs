use crate::swapchain::{clamp_spec, clamp_u32};
use vstd::prelude::*;

verus! {

// ---------------------------------------------------------------------------
// Window size and position
// ---------------------------------------------------------------------------

/// The logical size of the window: the configured size, at least 400 by 200
/// and at most the largest logical size of the monitor.
pub fn window_size(width: u32, height: u32, max_width: u32, max_height: u32) -> (r: (u32, u32))
    requires
        400 <= max_width,
        200 <= max_height,
    ensures
        r.0 == clamp_spec(width as int, 400, max_width as int),
        r.1 == clamp_spec(height as int, 200, max_height as int),
{
    (clamp_u32(width, 400, max_width), clamp_u32(height, 200, max_height))
}

/// Where a window of the given physical size is centred on a monitor at
/// `(monitor_x, monitor_y)`.
pub open spec fn centre(monitor_pos: int, monitor_size: int, window_size: int) -> int {
    monitor_pos + monitor_size / 2 - window_size / 2
}

/// The position of a window centred on a monitor that is not the one at the
/// origin; `None` leaves the placement to the windowing system.
pub fn centered_position(
    monitor_x: i32,
    monitor_y: i32,
    monitor_width: u32,
    monitor_height: u32,
    window_width: i32,
    window_height: i32,
) -> (r: Option<(i32, i32)>)
    requires
        monitor_width <= i32::MAX,
        monitor_height <= i32::MAX,
        window_width >= 0,
        window_height >= 0,
        i32::MIN <= monitor_x + monitor_width / 2 <= i32::MAX,
        i32::MIN <= monitor_y + monitor_height / 2 <= i32::MAX,
        i32::MIN <= centre(monitor_x as int, monitor_width as int, window_width as int)
            <= i32::MAX,
        i32::MIN <= centre(monitor_y as int, monitor_height as int, window_height as int)
            <= i32::MAX,
    ensures
        (monitor_x == 0 && monitor_y == 0) ==> r is None,
        !(monitor_x == 0 && monitor_y == 0) ==> r == Some(
            (
                centre(monitor_x as int, monitor_width as int, window_width as int) as i32,
                centre(monitor_y as int, monitor_height as int, window_height as int) as i32,
            ),
        ),
{
    if monitor_x != 0 || monitor_y != 0 {
        let half_w = (monitor_width / 2) as i32;
        let half_h = (monitor_height / 2) as i32;
        let x = monitor_x + half_w - window_width / 2;
        let y = monitor_y + half_h - window_height / 2;
        Some((x, y))
    } else {
        None
    }
}

// ---------------------------------------------------------------------------
// Monitors and video modes
// ---------------------------------------------------------------------------

/// Whether `needle` occurs in `hay` at position `i`.
pub open spec fn occurs_at(hay: Seq<char>, needle: Seq<char>, i: int) -> bool {
    0 <= i && i + needle.len() <= hay.len() && hay.subrange(i, i + needle.len()) == needle
}

/// Whether `needle` occurs in `hay`.
pub open spec fn contains_text(hay: Seq<char>, needle: Seq<char>) -> bool {
    exists|i: int| occurs_at(hay, needle, i)
}

/// Whether `needle` occurs in `hay`, as `str::contains` with a string
/// pattern.
pub fn text_contains(hay: &str, needle: &str) -> (r: bool)
    ensures
        r == contains_text(hay@, needle@),
{
    let h = crate::text::chars_of(hay);
    let n = crate::text::chars_of(needle);
    if n.len() > h.len() {
        proof {
            assert forall|i: int| !occurs_at(hay@, needle@, i) by {}
        }
        return false;
    }
    let last = h.len() - n.len();
    let mut i: usize = 0;
    while i <= last
        invariant
            h@ == hay@,
            n@ == needle@,
            n@.len() <= h@.len(),
            last == h@.len() - n@.len(),
            h@.len() <= usize::MAX,
            forall|k: int| 0 <= k < i ==> !occurs_at(hay@, needle@, k),
        decreases last + 1 - i,
    {
        let mut j: usize = 0;
        let mut same = true;
        while j < n.len()
            invariant
                h@ == hay@,
                n@ == needle@,
                i <= last,
                n@.len() <= h@.len(),
                h@.len() <= usize::MAX,
                last == h@.len() - n@.len(),
                j <= n@.len(),
                same == (forall|k: int| 0 <= k < j ==> h@[i + k] == n@[k]),
            decreases n@.len() - j,
        {
            if h[i + j] != n[j] {
                same = false;
            }
            j = j + 1;
        }
        if same {
            proof {
                assert(hay@.subrange(i as int, i + needle@.len()) =~= needle@);
                assert(occurs_at(hay@, needle@, i as int));
            }
            return true;
        }
        proof {
            assert(!occurs_at(hay@, needle@, i as int)) by {
                if occurs_at(hay@, needle@, i as int) {
                    let k = choose|k: int| 0 <= k < n@.len() && h@[i + k] != n@[k];
                    assert(hay@.subrange(i as int, i + needle@.len())[k] == h@[i + k]);
                }
            }
        }
        if i == last {
            proof {
                assert forall|k: int| !occurs_at(hay@, needle@, k) by {
                    if occurs_at(hay@, needle@, k) {
                        assert(0 <= k <= i);
                    }
                }
            }
            return false;
        }
        i = i + 1;
    }
    false
}

/// Whether monitor `i` has a name that contains `wanted`.
pub open spec fn monitor_matches(names: Seq<Option<String>>, wanted: Seq<char>, i: int) -> bool {
    names[i] matches Some(n) && contains_text(n@, wanted)
}

/// The monitor to open the window on: the first whose name contains the
/// preferred name, when one is preferred and such a monitor exists, else the
/// primary monitor.
#[verifier::spinoff_prover]
pub fn select_best_monitor(
    names: &Vec<Option<String>>,
    preferred: &Option<String>,
    primary: Option<usize>,
) -> (r: Option<usize>)
    ensures
        match preferred {
            Some(p) => if exists|k: int| 0 <= k < names@.len() && monitor_matches(names@, p@, k) {
                r matches Some(i) && 0 <= i < names@.len() && monitor_matches(names@, p@, i as int)
                    && forall|k: int| 0 <= k < i ==> !monitor_matches(names@, p@, k)
            } else {
                r == primary
            },
            None => r == primary,
        },
{
    if let Some(p) = preferred {
        let mut i: usize = 0;
        while i < names.len()
            invariant
                i <= names@.len(),
                *preferred == Some(*p),
                forall|k: int| 0 <= k < i ==> !monitor_matches(names@, p@, k),
            decreases names@.len() - i,
        {
            let found = match &names[i] {
                Some(n) => text_contains(n.as_str(), p.as_str()),
                None => false,
            };
            if found {
                proof {
                    assert(monitor_matches(names@, p@, i as int));
                    assert(exists|k: int| 0 <= k < names@.len() && monitor_matches(names@, p@, k));
                    assert(forall|k: int| 0 <= k < i ==> !monitor_matches(names@, p@, k));
                }
                return Some(i);
            }
            i = i + 1;
        }
    }
    primary
}

/// A video mode of a monitor.
#[derive(Clone, Copy, Debug, PartialEq, Eq)]
pub struct VideoMode {
    pub width: u32,
    pub height: u32,
    pub refresh_rate_millihertz: u32,
    pub bit_depth: u16,
}

/// `|a - b|`.
pub open spec fn abs_diff(a: int, b: int) -> int {
    if a >= b {
        a - b
    } else {
        b - a
    }
}

/// The ranking key of an unsigned difference: its negation as an `i32`, the
/// difference being cast to `i32` first (so a difference above `i32::MAX`
/// wraps around).
pub open spec fn wrap_key(d: int) -> int {
    if d <= 0x7fff_ffff {
        -d
    } else {
        0x1_0000_0000 - d
    }
}

/// How well a video mode matches the wanted one: the negated differences of
/// width, height, refresh rate in whole hertz and colour depth, compared in
/// that order; higher is better.
pub open spec fn mode_key(
    m: VideoMode,
    width: u32,
    height: u32,
    refresh_rate: u32,
    bit_depth: u16,
) -> (int, int, int, int) {
    (
        wrap_key(abs_diff(m.width as int, width as int)),
        wrap_key(abs_diff(m.height as int, height as int)),
        wrap_key(abs_diff((m.refresh_rate_millihertz / 1000) as int, refresh_rate as int)),
        -abs_diff(m.bit_depth as int, bit_depth as int),
    )
}

/// Whether `a` is at most `b` in lexicographic order.
pub open spec fn lex_le(a: (int, int, int, int), b: (int, int, int, int)) -> bool {
    a.0 < b.0 || (a.0 == b.0 && (a.1 < b.1 || (a.1 == b.1 && (a.2 < b.2 || (a.2 == b.2
        && a.3 <= b.3)))))
}

/// Whether no difference of width, height or refresh rate is exactly
/// `2^31`, whose negation as an `i32` overflows.
pub open spec fn keys_defined(modes: Seq<VideoMode>, width: u32, height: u32, refresh_rate: u32) -> bool {
    forall|i: int|
        0 <= i < modes.len() ==> {
            &&& abs_diff(#[trigger] modes[i].width as int, width as int) != 0x8000_0000
            &&& abs_diff(modes[i].height as int, height as int) != 0x8000_0000
            &&& abs_diff((modes[i].refresh_rate_millihertz / 1000) as int, refresh_rate as int)
                != 0x8000_0000
        }
}

fn key_of(d: u32) -> (k: i64)
    ensures
        k == wrap_key(d as int),
{
    if d <= 0x7fff_ffff {
        -(d as i64)
    } else {
        0x1_0000_0000i64 - d as i64
    }
}

fn key(m: &VideoMode, width: u32, height: u32, refresh_rate: u32, bit_depth: u16) -> (r: (
    i64,
    i64,
    i64,
    i64,
))
    ensures
        (r.0 as int, r.1 as int, r.2 as int, r.3 as int) == mode_key(
            *m,
            width,
            height,
            refresh_rate,
            bit_depth,
        ),
{
    let dw = if m.width >= width {
        m.width - width
    } else {
        width - m.width
    };
    let dh = if m.height >= height {
        m.height - height
    } else {
        height - m.height
    };
    let rr = m.refresh_rate_millihertz / 1000;
    let dr = if rr >= refresh_rate {
        rr - refresh_rate
    } else {
        refresh_rate - rr
    };
    let db = if m.bit_depth >= bit_depth {
        m.bit_depth - bit_depth
    } else {
        bit_depth - m.bit_depth
    };
    (key_of(dw), key_of(dh), key_of(dr), -(db as i64))
}

/// How far `a` lies from `b`.
pub open spec fn gap(a: int, b: int) -> int {
    if a < b {
        b - a
    } else {
        a - b
    }
}

/// How far a video mode lies from the wanted one: in width, in height, in
/// whole hertz of refresh rate and in colour depth.
pub open spec fn mode_gaps(
    m: VideoMode,
    width: u32,
    height: u32,
    refresh_rate: u32,
    bit_depth: u16,
) -> (int, int, int, int) {
    (
        gap(m.width as int, width as int),
        gap(m.height as int, height as int),
        gap((m.refresh_rate_millihertz / 1000) as int, refresh_rate as int),
        gap(m.bit_depth as int, bit_depth as int),
    )
}

/// Whether gaps `a` are strictly smaller than gaps `b`: width first, then
/// height, refresh rate and depth.
pub open spec fn closer(a: (int, int, int, int), b: (int, int, int, int)) -> bool {
    a.0 < b.0 || (a.0 == b.0 && (a.1 < b.1 || (a.1 == b.1 && (a.2 < b.2 || (a.2 == b.2 && a.3
        < b.3)))))
}

/// Whether the width, height and refresh-rate gaps of every mode fit in an
/// `i32`, as they do for every real monitor.
pub open spec fn gaps_fit(modes: Seq<VideoMode>, width: u32, height: u32, refresh_rate: u32) -> bool {
    forall|i: int|
        0 <= i < modes.len() ==> {
            let g = #[trigger] mode_gaps(modes[i], width, height, refresh_rate, 0);
            &&& g.0 <= 0x7fff_ffff
            &&& g.1 <= 0x7fff_ffff
            &&& g.2 <= 0x7fff_ffff
        }
}

/// Whether mode `b` is what the search picks by the ranking key: no mode
/// ranks above it, and every later mode ranks below it.
pub open spec fn picked_by_key(
    modes: Seq<VideoMode>,
    width: u32,
    height: u32,
    bit_depth: u16,
    refresh_rate: u32,
    b: int,
) -> bool {
    &&& 0 <= b < modes.len()
    &&& forall|j: int|
        0 <= j <= b ==> lex_le(
            #[trigger] mode_key(modes[j], width, height, refresh_rate, bit_depth),
            mode_key(modes[b], width, height, refresh_rate, bit_depth),
        )
    &&& forall|j: int|
        b < j < modes.len() ==> !lex_le(
            mode_key(modes[b], width, height, refresh_rate, bit_depth),
            #[trigger] mode_key(modes[j], width, height, refresh_rate, bit_depth),
        )
}

proof fn lemma_key_is_negated_gaps(
    m: VideoMode,
    width: u32,
    height: u32,
    refresh_rate: u32,
    bit_depth: u16,
)
    requires
        mode_gaps(m, width, height, refresh_rate, 0).0 <= 0x7fff_ffff,
        mode_gaps(m, width, height, refresh_rate, 0).1 <= 0x7fff_ffff,
        mode_gaps(m, width, height, refresh_rate, 0).2 <= 0x7fff_ffff,
    ensures
        ({
            let k = mode_key(m, width, height, refresh_rate, bit_depth);
            let g = mode_gaps(m, width, height, refresh_rate, bit_depth);
            k == (-g.0, -g.1, -g.2, -g.3)
        }),
{
}

/// Law: where the gaps fit in an `i32`, the chosen video mode is a closest
/// one: no mode is strictly closer in width, then height, then refresh
/// rate, then depth; and of the closest ones it is the last. In particular,
/// among modes of equal width, refresh rate and depth the one with the
/// smallest height gap wins, and an exact match is always chosen over a mode
/// that is not one.
pub proof fn law_best_video_mode_is_closest(
    modes: Seq<VideoMode>,
    width: u32,
    height: u32,
    bit_depth: u16,
    refresh_rate: u32,
    b: int,
)
    requires
        gaps_fit(modes, width, height, refresh_rate),
        picked_by_key(modes, width, height, bit_depth, refresh_rate, b),
    ensures
        forall|j: int|
            0 <= j < modes.len() ==> !closer(
                #[trigger] mode_gaps(modes[j], width, height, refresh_rate, bit_depth),
                mode_gaps(modes[b], width, height, refresh_rate, bit_depth),
            ),
        forall|j: int|
            b < j < modes.len() ==> closer(
                mode_gaps(modes[b], width, height, refresh_rate, bit_depth),
                #[trigger] mode_gaps(modes[j], width, height, refresh_rate, bit_depth),
            ),
{
    assert(mode_gaps(modes[b], width, height, refresh_rate, 0).0 <= 0x7fff_ffff);
    lemma_key_is_negated_gaps(modes[b], width, height, refresh_rate, bit_depth);
    assert forall|j: int| 0 <= j < modes.len() implies !closer(
        #[trigger] mode_gaps(modes[j], width, height, refresh_rate, bit_depth),
        mode_gaps(modes[b], width, height, refresh_rate, bit_depth),
    ) by {
        assert(mode_gaps(modes[j], width, height, refresh_rate, 0).0 <= 0x7fff_ffff);
        lemma_key_is_negated_gaps(modes[j], width, height, refresh_rate, bit_depth);
        if j <= b {
            assert(lex_le(
                mode_key(modes[j], width, height, refresh_rate, bit_depth),
                mode_key(modes[b], width, height, refresh_rate, bit_depth),
            ));
        } else {
            assert(!lex_le(
                mode_key(modes[b], width, height, refresh_rate, bit_depth),
                mode_key(modes[j], width, height, refresh_rate, bit_depth),
            ));
        }
    }
    assert forall|j: int| b < j < modes.len() implies closer(
        mode_gaps(modes[b], width, height, refresh_rate, bit_depth),
        #[trigger] mode_gaps(modes[j], width, height, refresh_rate, bit_depth),
    ) by {
        assert(mode_gaps(modes[j], width, height, refresh_rate, 0).0 <= 0x7fff_ffff);
        lemma_key_is_negated_gaps(modes[j], width, height, refresh_rate, bit_depth);
        assert(!lex_le(
            mode_key(modes[b], width, height, refresh_rate, bit_depth),
            mode_key(modes[j], width, height, refresh_rate, bit_depth),
        ));
    }
}

/// The video mode that best matches the wanted size, refresh rate and colour
/// depth, the last of the best where several tie; `None` when there is no
/// mode.
pub fn find_best_video_mode(
    modes: &Vec<VideoMode>,
    width: u32,
    height: u32,
    bit_depth: u16,
    refresh_rate: u32,
) -> (r: Option<usize>)
    requires
        keys_defined(modes@, width, height, refresh_rate),
    ensures
        match r {
            Some(b) => b < modes@.len() && (forall|j: int|
                0 <= j <= b ==> lex_le(
                    #[trigger] mode_key(modes@[j], width, height, refresh_rate, bit_depth),
                    mode_key(modes@[b as int], width, height, refresh_rate, bit_depth),
                )) && (forall|j: int|
                b < j < modes@.len() ==> !lex_le(
                    mode_key(modes@[b as int], width, height, refresh_rate, bit_depth),
                    #[trigger] mode_key(modes@[j], width, height, refresh_rate, bit_depth),
                )),
            None => modes@.len() == 0,
        },
        match r {
            Some(b) => gaps_fit(modes@, width, height, refresh_rate) ==> {
                &&& forall|j: int|
                    0 <= j < modes@.len() ==> !closer(
                        #[trigger] mode_gaps(modes@[j], width, height, refresh_rate, bit_depth),
                        mode_gaps(modes@[b as int], width, height, refresh_rate, bit_depth),
                    )
                &&& forall|j: int|
                    b < j < modes@.len() ==> closer(
                        mode_gaps(modes@[b as int], width, height, refresh_rate, bit_depth),
                        #[trigger] mode_gaps(modes@[j], width, height, refresh_rate, bit_depth),
                    )
            },
            None => true,
        },
{
    if modes.len() == 0 {
        return None;
    }
    let mut best: usize = 0;
    let mut best_k = key(&modes[0], width, height, refresh_rate, bit_depth);
    let mut i: usize = 1;
    while i < modes.len()
        invariant
            1 <= i <= modes@.len(),
            best < i,
            (best_k.0 as int, best_k.1 as int, best_k.2 as int, best_k.3 as int) == mode_key(
                modes@[best as int],
                width,
                height,
                refresh_rate,
                bit_depth,
            ),
            forall|j: int|
                0 <= j <= best ==> lex_le(
                    #[trigger] mode_key(modes@[j], width, height, refresh_rate, bit_depth),
                    mode_key(modes@[best as int], width, height, refresh_rate, bit_depth),
                ),
            forall|j: int|
                best < j < i ==> !lex_le(
                    mode_key(modes@[best as int], width, height, refresh_rate, bit_depth),
                    #[trigger] mode_key(modes@[j], width, height, refresh_rate, bit_depth),
                ),
        decreases modes@.len() - i,
    {
        let k = key(&modes[i], width, height, refresh_rate, bit_depth);
        let at_least = best_k.0 < k.0 || (best_k.0 == k.0 && (best_k.1 < k.1 || (best_k.1 == k.1
            && (best_k.2 < k.2 || (best_k.2 == k.2 && best_k.3 <= k.3)))));
        if at_least {
            best = i;
            best_k = k;
        }
        i = i + 1;
    }
    proof {
        if gaps_fit(modes@, width, height, refresh_rate) {
            law_best_video_mode_is_closest(modes@, width, height, bit_depth, refresh_rate, best as int);
        }
    }
    Some(best)
}

} // verus!
