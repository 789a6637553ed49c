//! Searching a haystack buffer for a needle, by sub-image similarity or by
//! exact pixel color.
//!
//! The similarity score of a candidate window is the sum of squared
//! per-channel sample differences ("ssd"). The root-mean-square error of the
//! window is `sqrt(ssd / samples)`; for a fixed needle that is a strictly
//! increasing function of `ssd`, so minimizing `ssd` minimizes the RMS and
//! both break ties identically. The search is therefore exact integer
//! arithmetic throughout; callers that want the RMS divide and take the
//! square root of the returned pair.

use vstd::prelude::*;
use crate::buffer::PixelBuffer;

verus! {

/// The squared difference of two samples.
pub open spec fn diff_sq(a: u8, b: u8) -> int {
    (a - b) * (a - b)
}

/// Sum of `diff_sq` over the first `cc` channels of the haystack pixel at
/// `(x + dx, y + dy)` and the needle pixel at `(dx, dy)`.
pub open spec fn pix_ssd(h: PixelBuffer, n: PixelBuffer, x: int, y: int, dx: int, dy: int, cc: int) -> int
    decreases cc,
{
    if cc <= 0 {
        0
    } else {
        pix_ssd(h, n, x, y, dx, dy, cc - 1)
            + diff_sq(h.spec_sample(x + dx, y + dy, cc - 1), n.spec_sample(dx, dy, cc - 1))
    }
}

/// Sum of `pix_ssd` over the first `cols` pixels of needle row `dy`.
pub open spec fn row_ssd(h: PixelBuffer, n: PixelBuffer, x: int, y: int, dy: int, cols: int) -> int
    decreases cols,
{
    if cols <= 0 {
        0
    } else {
        row_ssd(h, n, x, y, dy, cols - 1)
            + pix_ssd(h, n, x, y, cols - 1, dy, n.channels as int)
    }
}

/// Sum of `row_ssd` over the first `rows` needle rows.
pub open spec fn win_ssd_upto(h: PixelBuffer, n: PixelBuffer, x: int, y: int, rows: int) -> int
    decreases rows,
{
    if rows <= 0 {
        0
    } else {
        win_ssd_upto(h, n, x, y, rows - 1)
            + row_ssd(h, n, x, y, rows - 1, n.width as int)
    }
}

/// The sum of squared per-channel differences between the needle and the
/// haystack window whose top-left corner is at `(x, y)`.
pub open spec fn window_ssd(h: PixelBuffer, n: PixelBuffer, x: int, y: int) -> int {
    win_ssd_upto(h, n, x, y, n.height as int)
}

/// The needle, placed at some offset, fits entirely inside the haystack.
pub open spec fn fits(h: PixelBuffer, n: PixelBuffer) -> bool {
    n.width <= h.width && n.height <= h.height
}

/// `(x, y)` is a candidate offset: the needle placed there lies entirely
/// inside the haystack.
pub open spec fn in_range(h: PixelBuffer, n: PixelBuffer, x: int, y: int) -> bool {
    &&& 0 <= x <= h.width - n.width
    &&& 0 <= y <= h.height - n.height
}

/// `(x1, y1)` comes before `(x2, y2)` in the search's enumeration order:
/// increasing `x`, and increasing `y` within one `x`.
pub open spec fn lex_before(x1: int, y1: int, x2: int, y2: int) -> bool {
    x1 < x2 || (x1 == x2 && y1 < y2)
}

/// `(bx, by)` is the offset the search must report, with score `s`: a
/// candidate offset of minimum ssd, and strictly better than every candidate
/// enumerated before it (so ties go to the smallest `x`, then smallest `y`).
pub open spec fn is_best_match(h: PixelBuffer, n: PixelBuffer, bx: int, by: int, s: int) -> bool {
    &&& in_range(h, n, bx, by)
    &&& s == window_ssd(h, n, bx, by)
    &&& forall|x: int, y: int| in_range(h, n, x, y) ==> #[trigger] window_ssd(h, n, x, y) >= s
    &&& forall|x: int, y: int| in_range(h, n, x, y) && lex_before(x, y, bx, by)
            ==> #[trigger] window_ssd(h, n, x, y) > s
}

/// A successful template match: the reported offset, its sum of squared
/// differences, and the number of (pixel, channel) samples it was summed
/// over. The root-mean-square error is `sqrt(ssd / samples)`.
pub struct MatchResult {
    pub x: u32,
    pub y: u32,
    pub ssd: u128,
    pub samples: usize,
}

/// A failed template match.
#[derive(Debug, PartialEq, Eq)]
pub enum MatchError {
    /// The needle is strictly larger than the haystack in width or height,
    /// so no candidate offset exists.
    NeedleTooLarge,
}

/// The outcome of a color search: `found` says whether any pixel matched;
/// on success `(x, y)` is the first matching pixel in row-major order.
pub struct ColorResult {
    pub found: bool,
    pub x: u32,
    pub y: u32,
}

/// The pixel at `(x, y)` has exactly the target red, green and blue samples.
/// Any further channel (alpha) is ignored.
pub open spec fn color_matches(b: PixelBuffer, x: int, y: int, r: u8, g: u8, bl: u8) -> bool {
    &&& b.spec_sample(x, y, 0) == r
    &&& b.spec_sample(x, y, 1) == g
    &&& b.spec_sample(x, y, 2) == bl
}

/// `(x1, y1)` is scanned before `(x2, y2)` in row-major order: top to
/// bottom, and left to right within one row.
pub open spec fn row_major_before(x1: int, y1: int, x2: int, y2: int) -> bool {
    y1 < y2 || (y1 == y2 && x1 < x2)
}

pub proof fn lemma_diff_sq_bound(a: u8, b: u8)
    ensures
        0 <= diff_sq(a, b) <= 65025,
{
    let d = a - b;
    assert(-255 <= d <= 255);
    assert(0 <= d * d <= 65025) by (nonlinear_arith)
        requires
            -255 <= d <= 255,
    ;
}

pub proof fn lemma_pix_ssd_bound(h: PixelBuffer, n: PixelBuffer, x: int, y: int, dx: int, dy: int, cc: int)
    requires
        cc >= 0,
    ensures
        0 <= pix_ssd(h, n, x, y, dx, dy, cc) <= cc * 65025,
    decreases cc,
{
    if cc > 0 {
        lemma_pix_ssd_bound(h, n, x, y, dx, dy, cc - 1);
        lemma_diff_sq_bound(
            h.spec_sample(x + dx, y + dy, cc - 1),
            n.spec_sample(dx, dy, cc - 1),
        );
    }
}

pub proof fn lemma_row_ssd_bound(h: PixelBuffer, n: PixelBuffer, x: int, y: int, dy: int, cols: int)
    requires
        cols >= 0,
        n.channels >= 0,
    ensures
        0 <= row_ssd(h, n, x, y, dy, cols) <= cols * (n.channels * 65025),
    decreases cols,
{
    if cols > 0 {
        lemma_row_ssd_bound(h, n, x, y, dy, cols - 1);
        lemma_pix_ssd_bound(h, n, x, y, cols - 1, dy, n.channels as int);
        assert((cols - 1) * (n.channels * 65025) + n.channels * 65025
            == cols * (n.channels * 65025)) by (nonlinear_arith);
    }
}

pub proof fn lemma_win_ssd_bound(h: PixelBuffer, n: PixelBuffer, x: int, y: int, rows: int)
    requires
        rows >= 0,
    ensures
        0 <= win_ssd_upto(h, n, x, y, rows) <= rows * (n.width * (n.channels * 65025)),
    decreases rows,
{
    if rows > 0 {
        lemma_win_ssd_bound(h, n, x, y, rows - 1);
        lemma_row_ssd_bound(h, n, x, y, rows - 1, n.width as int);
        assert((rows - 1) * (n.width * (n.channels * 65025)) + n.width * (n.channels * 65025)
            == rows * (n.width * (n.channels * 65025))) by (nonlinear_arith);
    }
}

/// Every window score is non-negative.
pub proof fn lemma_window_ssd_nonneg(h: PixelBuffer, n: PixelBuffer, x: int, y: int)
    ensures
        window_ssd(h, n, x, y) >= 0,
{
    lemma_win_ssd_bound(h, n, x, y, n.height as int);
}

proof fn lemma_pix_ssd_self_zero(b: PixelBuffer, dx: int, dy: int, cc: int)
    requires
        cc >= 0,
    ensures
        pix_ssd(b, b, 0, 0, dx, dy, cc) == 0,
    decreases cc,
{
    if cc > 0 {
        lemma_pix_ssd_self_zero(b, dx, dy, cc - 1);
        let a = b.spec_sample(dx, dy, cc - 1);
        assert(b.spec_sample(0 + dx, 0 + dy, cc - 1) == a);
        assert(diff_sq(a, a) == 0) by (nonlinear_arith);
    }
}

proof fn lemma_row_ssd_self_zero(b: PixelBuffer, dy: int, cols: int)
    requires
        cols >= 0,
    ensures
        row_ssd(b, b, 0, 0, dy, cols) == 0,
    decreases cols,
{
    if cols > 0 {
        lemma_row_ssd_self_zero(b, dy, cols - 1);
        lemma_pix_ssd_self_zero(b, cols - 1, dy, b.channels as int);
    }
}

/// A buffer compared against itself at offset `(0, 0)` has score zero.
pub proof fn lemma_window_ssd_self_zero(b: PixelBuffer)
    ensures
        window_ssd(b, b, 0, 0) == 0,
{
    lemma_win_ssd_self_zero_upto(b, b.height as int);
}

proof fn lemma_win_ssd_self_zero_upto(b: PixelBuffer, rows: int)
    requires
        rows >= 0,
    ensures
        win_ssd_upto(b, b, 0, 0, rows) == 0,
    decreases rows,
{
    if rows > 0 {
        lemma_win_ssd_self_zero_upto(b, rows - 1);
        lemma_row_ssd_self_zero(b, rows - 1, b.width as int);
    }
}

/// Matching an image against itself reports offset `(0, 0)` with score zero:
/// whatever offset the search settles on, the contract of the search forces
/// it to be the origin.
pub proof fn lemma_self_match_is_origin(img: PixelBuffer, bx: int, by: int, s: int)
    requires
        is_best_match(img, img, bx, by, s),
    ensures
        bx == 0 && by == 0 && s == 0,
{
    lemma_window_ssd_self_zero(img);
    lemma_window_ssd_nonneg(img, img, bx, by);
    assert(in_range(img, img, 0, 0));
    assert(window_ssd(img, img, 0, 0) >= s);
    assert(s == 0);
    if bx != 0 || by != 0 {
        assert(lex_before(0, 0, bx, by));
        assert(window_ssd(img, img, 0, 0) > s);
        assert(false);
    }
}

/// The reported offset and score are uniquely determined by the two buffers:
/// repeated searches over identical inputs return identical results.
pub proof fn lemma_best_match_unique(
    h: PixelBuffer, n: PixelBuffer,
    x1: int, y1: int, s1: int,
    x2: int, y2: int, s2: int,
)
    requires
        is_best_match(h, n, x1, y1, s1),
        is_best_match(h, n, x2, y2, s2),
    ensures
        x1 == x2 && y1 == y2 && s1 == s2,
{
    assert(window_ssd(h, n, x1, y1) >= s2);
    assert(window_ssd(h, n, x2, y2) >= s1);
    assert(s1 == s2);
    if lex_before(x1, y1, x2, y2) {
        assert(window_ssd(h, n, x1, y1) > s2);
        assert(false);
    }
    if lex_before(x2, y2, x1, y1) {
        assert(window_ssd(h, n, x2, y2) > s1);
        assert(false);
    }
}

/// Ties go to the earliest offset: any other candidate with the same score
/// comes strictly later in the enumeration (larger `x`, or equal `x` and
/// larger `y`).
pub proof fn lemma_tie_breaks_to_smallest(
    h: PixelBuffer, n: PixelBuffer,
    bx: int, by: int, s: int,
    x: int, y: int,
)
    requires
        is_best_match(h, n, bx, by, s),
        in_range(h, n, x, y),
        window_ssd(h, n, x, y) == s,
        !(x == bx && y == by),
    ensures
        lex_before(bx, by, x, y),
{
    if lex_before(x, y, bx, by) {
        assert(window_ssd(h, n, x, y) > s);
        assert(false);
    }
}

/// A needle of exactly the haystack's size leaves `(0, 0)` as the single
/// candidate offset.
pub proof fn lemma_equal_size_single_candidate(h: PixelBuffer, n: PixelBuffer)
    requires
        n.width == h.width,
        n.height == h.height,
    ensures
        forall|x: int, y: int| #[trigger] in_range(h, n, x, y) <==> (x == 0 && y == 0),
{
}

/// Computes the sum of squared differences of the window at `(x, y)`.
pub fn window_ssd_at(h: &PixelBuffer, n: &PixelBuffer, x: u32, y: u32) -> (ssd: u128)
    requires
        h.wf(),
        n.wf(),
        h.channels == n.channels,
        x + n.width <= h.width,
        y + n.height <= h.height,
    ensures
        ssd == window_ssd(*h, *n, x as int, y as int),
{
    let w = n.width;
    let nh = n.height;
    let ch = n.channels;
    let ghost bound = (nh as int) * ((w as int) * ((ch as int) * 65025));
    proof {
        assert(bound < u128::MAX - 65025) by (nonlinear_arith)
            requires
                bound == (nh as int) * ((w as int) * ((ch as int) * 65025)),
                nh <= u32::MAX,
                w <= u32::MAX,
                ch <= 4,
        ;
    }
    let mut acc: u128 = 0;
    let mut dy: u32 = 0;
    while dy < nh
        invariant
            h.wf(),
            n.wf(),
            h.channels == n.channels,
            x + n.width <= h.width,
            y + n.height <= h.height,
            w == n.width,
            nh == n.height,
            ch == n.channels,
            bound == (nh as int) * ((w as int) * ((ch as int) * 65025)),
            bound < u128::MAX - 65025,
            dy <= nh,
            acc == win_ssd_upto(*h, *n, x as int, y as int, dy as int),
            acc <= (dy as int) * ((w as int) * ((ch as int) * 65025)),
        decreases nh - dy,
    {
        let mut dx: u32 = 0;
        proof {
            assert((dy as int) * ((w as int) * ((ch as int) * 65025)) <= bound)
                by (nonlinear_arith)
                requires
                    bound == (nh as int) * ((w as int) * ((ch as int) * 65025)),
                    0 <= dy < nh,
                    w >= 0,
                    ch >= 0,
            ;
        }
        while dx < w
            invariant
                h.wf(),
                n.wf(),
                h.channels == n.channels,
                x + n.width <= h.width,
                y + n.height <= h.height,
                w == n.width,
                nh == n.height,
                ch == n.channels,
                bound == (nh as int) * ((w as int) * ((ch as int) * 65025)),
                bound < u128::MAX - 65025,
                dy < nh,
                dx <= w,
                acc == win_ssd_upto(*h, *n, x as int, y as int, dy as int)
                    + row_ssd(*h, *n, x as int, y as int, dy as int, dx as int),
                acc <= (dy as int) * ((w as int) * ((ch as int) * 65025))
                    + (dx as int) * ((ch as int) * 65025),
                (dy as int) * ((w as int) * ((ch as int) * 65025)) <= bound,
            decreases w - dx,
        {
            let mut c: u32 = 0;
            proof {
                assert((dy as int) * ((w as int) * ((ch as int) * 65025))
                    + (dx as int) * ((ch as int) * 65025)
                    + (ch as int) * 65025
                    <= bound) by (nonlinear_arith)
                    requires
                        bound == (nh as int) * ((w as int) * ((ch as int) * 65025)),
                        0 <= dy < nh,
                        0 <= dx < w,
                        ch >= 0,
                ;
            }
            while c < ch
                invariant
                    h.wf(),
                    n.wf(),
                    h.channels == n.channels,
                    x + n.width <= h.width,
                    y + n.height <= h.height,
                    w == n.width,
                    nh == n.height,
                    ch == n.channels,
                    bound == (nh as int) * ((w as int) * ((ch as int) * 65025)),
                    bound < u128::MAX - 65025,
                    dy < nh,
                    dx < w,
                    c <= ch,
                    acc == win_ssd_upto(*h, *n, x as int, y as int, dy as int)
                        + row_ssd(*h, *n, x as int, y as int, dy as int, dx as int)
                        + pix_ssd(*h, *n, x as int, y as int, dx as int, dy as int, c as int),
                    acc <= (dy as int) * ((w as int) * ((ch as int) * 65025))
                        + (dx as int) * ((ch as int) * 65025)
                        + (c as int) * 65025,
                    (dy as int) * ((w as int) * ((ch as int) * 65025))
                        + (dx as int) * ((ch as int) * 65025)
                        + (ch as int) * 65025
                        <= bound,
                decreases ch - c,
            {
                let hs = h.sample(x + dx, y + dy, c);
                let ns = n.sample(dx, dy, c);
                let d: u64 = if hs >= ns { (hs - ns) as u64 } else { (ns - hs) as u64 };
                proof {
                    assert(d * d == diff_sq(hs, ns) && d * d <= 65025) by (nonlinear_arith)
                        requires
                            (hs >= ns && d == hs - ns) || (hs < ns && d == ns - hs),
                            0 <= d <= 255,
                    ;
                }
                acc = acc + ((d * d) as u128);
                c = c + 1;
            }
            proof {
                assert((dx as int) * ((ch as int) * 65025) + (ch as int) * 65025
                    == ((dx as int) + 1) * ((ch as int) * 65025)) by (nonlinear_arith);
            }
            dx = dx + 1;
        }
        proof {
            assert((dy as int) * ((w as int) * ((ch as int) * 65025))
                + (w as int) * ((ch as int) * 65025)
                == ((dy as int) + 1) * ((w as int) * ((ch as int) * 65025)))
                by (nonlinear_arith);
        }
        dy = dy + 1;
    }
    acc
}

/// Finds the candidate offset whose window has minimum root-mean-square
/// difference from the needle, enumerating offsets in increasing `x` then
/// increasing `y` and keeping the first offset seen on a tie.
///
/// Fails exactly when the needle is strictly wider or taller than the
/// haystack; otherwise the returned offset, its exact sum of squared
/// differences, and the sample count of one window are reported.
pub fn match_template(h: &PixelBuffer, n: &PixelBuffer) -> (r: Result<MatchResult, MatchError>)
    requires
        h.wf(),
        n.wf(),
        h.channels == n.channels,
    ensures
        r is Ok <==> fits(*h, *n),
        !fits(*h, *n) ==> r == Err::<MatchResult, MatchError>(MatchError::NeedleTooLarge),
        r matches Ok(m) ==> is_best_match(*h, *n, m.x as int, m.y as int, m.ssd as int)
            && m.samples == n.width * n.height * n.channels,
{
    if n.width > h.width || n.height > h.height {
        return Err(MatchError::NeedleTooLarge);
    }
    let xmax: u64 = (h.width - n.width) as u64;
    let ymax: u64 = (h.height - n.height) as u64;
    let mut have = false;
    let mut bx: u32 = 0;
    let mut by: u32 = 0;
    let mut bsd: u128 = 0;
    let mut cx: u64 = 0;
    while cx <= xmax
        invariant
            h.wf(),
            n.wf(),
            h.channels == n.channels,
            fits(*h, *n),
            xmax == h.width - n.width,
            ymax == h.height - n.height,
            cx <= xmax + 1,
            !have ==> cx == 0,
            have ==> in_range(*h, *n, bx as int, by as int)
                && lex_before(bx as int, by as int, cx as int, 0)
                && bsd == window_ssd(*h, *n, bx as int, by as int),
            have ==> forall|px: int, py: int|
                in_range(*h, *n, px, py) && lex_before(px, py, cx as int, 0)
                    ==> #[trigger] window_ssd(*h, *n, px, py) >= bsd,
            have ==> forall|px: int, py: int|
                in_range(*h, *n, px, py) && lex_before(px, py, cx as int, 0)
                    && lex_before(px, py, bx as int, by as int)
                    ==> #[trigger] window_ssd(*h, *n, px, py) > bsd,
        decreases xmax + 1 - cx,
    {
        let mut cy: u64 = 0;
        while cy <= ymax
            invariant
                h.wf(),
                n.wf(),
                h.channels == n.channels,
                fits(*h, *n),
                xmax == h.width - n.width,
                ymax == h.height - n.height,
                cx <= xmax,
                cy <= ymax + 1,
                !have ==> cx == 0 && cy == 0,
                have ==> in_range(*h, *n, bx as int, by as int)
                    && lex_before(bx as int, by as int, cx as int, cy as int)
                    && bsd == window_ssd(*h, *n, bx as int, by as int),
                have ==> forall|px: int, py: int|
                    in_range(*h, *n, px, py) && lex_before(px, py, cx as int, cy as int)
                        ==> #[trigger] window_ssd(*h, *n, px, py) >= bsd,
                have ==> forall|px: int, py: int|
                    in_range(*h, *n, px, py) && lex_before(px, py, cx as int, cy as int)
                        && lex_before(px, py, bx as int, by as int)
                        ==> #[trigger] window_ssd(*h, *n, px, py) > bsd,
            decreases ymax + 1 - cy,
        {
            let s = window_ssd_at(h, n, cx as u32, cy as u32);
            if !have || s < bsd {
                have = true;
                bx = cx as u32;
                by = cy as u32;
                bsd = s;
            }
            cy = cy + 1;
        }
        cx = cx + 1;
    }
    proof {
        assert(in_range(*h, *n, 0, 0));
        if !have {
            assert(false);
        }
        assert(window_ssd(*h, *n, 0, 0) >= bsd);
    }
    Ok(MatchResult { x: bx, y: by, ssd: bsd, samples: n.data.len() })
}

/// Scans the haystack in row-major order for the first pixel whose red,
/// green and blue samples exactly equal the target color. The `tolerance`
/// parameter is accepted for interface compatibility but is not applied:
/// matching is exact. Absence is a valid outcome, reported as
/// `found == false` with `(0, 0)` coordinates.
#[allow(unused_variables)]
pub fn find_color(haystack: &PixelBuffer, r: u8, g: u8, b: u8, tolerance: u8) -> (res: ColorResult)
    requires
        haystack.wf(),
    ensures
        res.found <==> exists|x: int, y: int|
            0 <= x < haystack.width && 0 <= y < haystack.height
            && #[trigger] color_matches(*haystack, x, y, r, g, b),
        res.found ==> res.x < haystack.width && res.y < haystack.height
            && color_matches(*haystack, res.x as int, res.y as int, r, g, b)
            && forall|x: int, y: int|
                0 <= x < haystack.width && 0 <= y < haystack.height
                && row_major_before(x, y, res.x as int, res.y as int)
                ==> !#[trigger] color_matches(*haystack, x, y, r, g, b),
        !res.found ==> res.x == 0 && res.y == 0,
{
    let mut cy: u32 = 0;
    while cy < haystack.height
        invariant
            haystack.wf(),
            cy <= haystack.height,
            forall|x: int, y: int|
                0 <= x < haystack.width && 0 <= y < haystack.height
                && row_major_before(x, y, 0, cy as int)
                ==> !#[trigger] color_matches(*haystack, x, y, r, g, b),
        decreases haystack.height - cy,
    {
        let mut cx: u32 = 0;
        while cx < haystack.width
            invariant
                haystack.wf(),
                cy < haystack.height,
                cx <= haystack.width,
                forall|x: int, y: int|
                    0 <= x < haystack.width && 0 <= y < haystack.height
                    && row_major_before(x, y, cx as int, cy as int)
                    ==> !#[trigger] color_matches(*haystack, x, y, r, g, b),
            decreases haystack.width - cx,
        {
            let pr = haystack.sample(cx, cy, 0);
            let pg = haystack.sample(cx, cy, 1);
            let pb = haystack.sample(cx, cy, 2);
            if pr == r && pg == g && pb == b {
                assert(color_matches(*haystack, cx as int, cy as int, r, g, b));
                return ColorResult { found: true, x: cx, y: cy };
            }
            cx = cx + 1;
        }
        cy = cy + 1;
    }
    ColorResult { found: false, x: 0, y: 0 }
}

} // verus!
