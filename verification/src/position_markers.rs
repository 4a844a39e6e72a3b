//! Finder-pattern detection: a run-length scanner that recognises the
//! 1:1:3:1:1 black/white signature of a QR position marker along one line of
//! pixels, the collector that runs it over every column and row of an image,
//! and the clustering step that fuses the per-line hits into markers.

use vstd::math::abs;
use vstd::prelude::*;

use crate::cluster::{dbscan_cluster, dbscan_post, Classification};
use crate::raster::{is_white, GrayImage, MAX_DIMENSION};
use crate::SCALE;

verus! {

/// One successful 1:1:3:1:1 match along a scan line. `start` and `end` are
/// the inclusive positions of the first and last black pixel of the pattern;
/// the five counts are the widths of its runs, left to right.
#[derive(Clone, Copy, Debug)]
pub struct ScanResult {
    pub start: usize,
    pub end: usize,
    pub black_border1_count: usize,
    pub white_inner1_count: usize,
    pub black_inner_count: usize,
    pub white_inner2_count: usize,
    pub black_border2_count: usize,
}

impl ScanResult {
    /// Sum of the five run widths.
    pub open spec fn spec_total(&self) -> int {
        self.black_border1_count + self.white_inner1_count + self.black_inner_count
            + self.white_inner2_count + self.black_border2_count
    }

    /// Every run is non-empty and the runs exactly tile `start..=end`.
    pub open spec fn wf(&self) -> bool {
        &&& self.black_border1_count >= 1
        &&& self.white_inner1_count >= 1
        &&& self.black_inner_count >= 1
        &&& self.white_inner2_count >= 1
        &&& self.black_border2_count >= 1
        &&& self.start + self.spec_total() == self.end + 1
    }

    /// Midpoint of the pattern along the scan axis, in fixed-point units:
    /// the centre of the inner black run, `start + b1 + w1 + bi/2`.
    pub open spec fn spec_middle(&self) -> int {
        SCALE * (self.start + self.black_border1_count + self.white_inner1_count)
            + (SCALE / 2) * self.black_inner_count
    }

    /// Estimated outer width of the finder pattern, in fixed-point units:
    /// the inner run scaled by the total-to-inner ratio `7/3`.
    pub open spec fn spec_size(&self) -> int {
        7 * SCALE * self.black_inner_count / 3
    }

    /// Midpoint of the pattern along the scan axis (fixed-point).
    pub fn middle(&self) -> (m: i64)
        requires
            self.wf(),
            self.end < MAX_DIMENSION,
        ensures
            m == self.spec_middle(),
            0 <= m <= SCALE * MAX_DIMENSION,
    {
        256 * (self.start + self.black_border1_count + self.white_inner1_count) as i64
            + 128 * self.black_inner_count as i64
    }

    /// Estimated outer width of the finder pattern (fixed-point).
    pub fn size(&self) -> (s: i64)
        requires
            self.wf(),
            self.end < MAX_DIMENSION,
        ensures
            s == self.spec_size(),
            0 < s <= 3 * SCALE * MAX_DIMENSION,
    {
        let x: i64 = 7 * 256 * (self.black_inner_count as i64);
        proof {
            vstd::arithmetic::div_mod::lemma_div_is_ordered(1792, x as int, 3);
            vstd::arithmetic::div_mod::lemma_div_is_ordered(x as int, 29360128, 3);
        }
        x / 3
    }
}

/// The symmetry predicate on a candidate: with `one = (b1, w1)` and
/// `two = (b2, w2)`, require `(|b1-b2| + |w1-w2|) / (b1+w1+b2+w2) < 0.4`,
/// stated over the integers as `5 * (|b1-b2| + |w1-w2|) < 2 * (b1+w1+b2+w2)`.
pub open spec fn spec_is_symmetric(r: ScanResult) -> bool {
    let d = abs(r.black_border1_count - r.black_border2_count) + abs(
        r.white_inner1_count - r.white_inner2_count,
    );
    5 * d < 2 * (r.black_border1_count + r.white_inner1_count + r.black_border2_count
        + r.white_inner2_count)
}

/// One run of the ratio predicate: with `t` the total width, the run of
/// expected ratio `e` (out of 7) must satisfy `|e*(t/7) - run| < e * 0.5 * (t/7)`,
/// stated over the integers as `2 * |e*t - 7*run| < e * t`.
pub open spec fn spec_ratio_run_ok(t: int, e: int, run: int) -> bool {
    2 * abs(e * t - 7 * run) < e * t
}

/// The ratio predicate on a candidate: each of the five runs is within half
/// a module of its expected share of the 1:1:3:1:1 signature.
pub open spec fn spec_ratios_match(r: ScanResult) -> bool {
    let t = r.spec_total();
    &&& spec_ratio_run_ok(t, 1, r.black_border1_count as int)
    &&& spec_ratio_run_ok(t, 1, r.white_inner1_count as int)
    &&& spec_ratio_run_ok(t, 3, r.black_inner_count as int)
    &&& spec_ratio_run_ok(t, 1, r.white_inner2_count as int)
    &&& spec_ratio_run_ok(t, 1, r.black_border2_count as int)
}

/// A candidate is emitted only when it is both symmetric and ratio-matched.
pub open spec fn spec_is_valid_match(r: ScanResult) -> bool {
    spec_is_symmetric(r) && spec_ratios_match(r)
}

/// Decides the symmetry predicate (threshold 0.4) on a candidate.
pub fn is_symmetric(scan_result: &ScanResult) -> (r: bool)
    requires
        scan_result.black_border1_count <= MAX_DIMENSION,
        scan_result.white_inner1_count <= MAX_DIMENSION,
        scan_result.black_inner_count <= MAX_DIMENSION,
        scan_result.white_inner2_count <= MAX_DIMENSION,
        scan_result.black_border2_count <= MAX_DIMENSION,
    ensures
        r == spec_is_symmetric(*scan_result),
{
    let b1 = scan_result.black_border1_count;
    let w1 = scan_result.white_inner1_count;
    let b2 = scan_result.black_border2_count;
    let w2 = scan_result.white_inner2_count;
    let db: usize = if b1 >= b2 {
        b1 - b2
    } else {
        b2 - b1
    };
    let dw: usize = if w1 >= w2 {
        w1 - w2
    } else {
        w2 - w1
    };
    5 * (db + dw) < 2 * (b1 + w1 + b2 + w2)
}

/// Decides one run of the ratio predicate (expected ratio `e` out of 7,
/// variance threshold 0.5).
fn ratio_run_ok(t: usize, e: usize, run: usize) -> (r: bool)
    requires
        t <= 5 * MAX_DIMENSION,
        e <= 3,
        run <= MAX_DIMENSION,
    ensures
        r == spec_ratio_run_ok(t as int, e as int, run as int),
{
    proof {
        assert(e * t <= 245760) by (nonlinear_arith)
            requires
                0 <= e <= 3,
                0 <= t <= 81920,
        ;
    }
    let et = e * t;
    let sevenrun = 7 * run;
    let d: usize = if et >= sevenrun {
        et - sevenrun
    } else {
        sevenrun - et
    };
    2 * d < et
}

/// Decides the ratio predicate on a candidate.
pub fn ratios_match(scan_result: &ScanResult) -> (r: bool)
    requires
        scan_result.black_border1_count <= MAX_DIMENSION,
        scan_result.white_inner1_count <= MAX_DIMENSION,
        scan_result.black_inner_count <= MAX_DIMENSION,
        scan_result.white_inner2_count <= MAX_DIMENSION,
        scan_result.black_border2_count <= MAX_DIMENSION,
    ensures
        r == spec_ratios_match(*scan_result),
{
    let t = scan_result.black_border1_count + scan_result.white_inner1_count
        + scan_result.black_inner_count + scan_result.white_inner2_count
        + scan_result.black_border2_count;
    ratio_run_ok(t, 1, scan_result.black_border1_count) && ratio_run_ok(
        t,
        1,
        scan_result.white_inner1_count,
    ) && ratio_run_ok(t, 3, scan_result.black_inner_count) && ratio_run_ok(
        t,
        1,
        scan_result.white_inner2_count,
    ) && ratio_run_ok(t, 1, scan_result.black_border2_count)
}

/// Decides whether a candidate passes both validation predicates.
pub fn is_valid_match(scan_result: &ScanResult) -> (r: bool)
    requires
        scan_result.black_border1_count <= MAX_DIMENSION,
        scan_result.white_inner1_count <= MAX_DIMENSION,
        scan_result.black_inner_count <= MAX_DIMENSION,
        scan_result.white_inner2_count <= MAX_DIMENSION,
        scan_result.black_border2_count <= MAX_DIMENSION,
    ensures
        r == spec_is_valid_match(*scan_result),
{
    is_symmetric(scan_result) && ratios_match(scan_result)
}

/// State of the run-length scanner. The payload states record the start of
/// the candidate pattern and the widths of the runs read so far.
#[derive(Clone, Copy, Debug)]
pub enum ScanState {
    InWhite,
    InBlack,
    BlackBorder1 { start: usize, black_border1_count: usize },
    WhiteInner1 { start: usize, black_border1_count: usize, white_inner1_count: usize },
    BlackInner {
        start: usize,
        black_border1_count: usize,
        white_inner1_count: usize,
        black_inner_count: usize,
    },
    WhiteInner2 {
        start: usize,
        black_border1_count: usize,
        white_inner1_count: usize,
        black_inner_count: usize,
        white_inner2_count: usize,
    },
    BlackBorder2 {
        start: usize,
        black_border1_count: usize,
        white_inner1_count: usize,
        black_inner_count: usize,
        white_inner2_count: usize,
        black_border2_count: usize,
    },
    Found(ScanResult),
}

/// Relates a scanner state to the next position `pos` to be read: the runs
/// recorded so far are non-empty and exactly tile `start..pos`, and a `Found`
/// state holds a validated result ending just before `pos`.
pub open spec fn wf_state(s: ScanState, pos: int) -> bool {
    match s {
        ScanState::InWhite => true,
        ScanState::InBlack => true,
        ScanState::BlackBorder1 { start, black_border1_count } => {
            &&& black_border1_count >= 1
            &&& start + black_border1_count == pos
        },
        ScanState::WhiteInner1 { start, black_border1_count, white_inner1_count } => {
            &&& black_border1_count >= 1
            &&& white_inner1_count >= 1
            &&& start + black_border1_count + white_inner1_count == pos
        },
        ScanState::BlackInner { start, black_border1_count, white_inner1_count, black_inner_count } => {
            &&& black_border1_count >= 1
            &&& white_inner1_count >= 1
            &&& black_inner_count >= 1
            &&& start + black_border1_count + white_inner1_count + black_inner_count == pos
        },
        ScanState::WhiteInner2 {
            start,
            black_border1_count,
            white_inner1_count,
            black_inner_count,
            white_inner2_count,
        } => {
            &&& black_border1_count >= 1
            &&& white_inner1_count >= 1
            &&& black_inner_count >= 1
            &&& white_inner2_count >= 1
            &&& start + black_border1_count + white_inner1_count + black_inner_count
                + white_inner2_count == pos
        },
        ScanState::BlackBorder2 {
            start,
            black_border1_count,
            white_inner1_count,
            black_inner_count,
            white_inner2_count,
            black_border2_count,
        } => {
            &&& black_border1_count >= 1
            &&& white_inner1_count >= 1
            &&& black_inner_count >= 1
            &&& white_inner2_count >= 1
            &&& black_border2_count >= 1
            &&& start + black_border1_count + white_inner1_count + black_inner_count
                + white_inner2_count + black_border2_count == pos
        },
        ScanState::Found(r) => {
            &&& r.wf()
            &&& spec_is_valid_match(r)
            &&& r.end + 1 == pos
        },
    }
}

/// Lower bound on the start of any pattern the scanner can still emit: the
/// recorded start of the current candidate, or the read position itself.
pub open spec fn state_start_bound(s: ScanState, pos: int) -> int {
    match s {
        ScanState::InWhite => pos,
        ScanState::InBlack => pos,
        ScanState::BlackBorder1 { start, .. } => start as int,
        ScanState::WhiteInner1 { start, .. } => start as int,
        ScanState::BlackInner { start, .. } => start as int,
        ScanState::WhiteInner2 { start, .. } => start as int,
        ScanState::BlackBorder2 { start, .. } => start as int,
        ScanState::Found(r) => r.start as int,
    }
}

/// Rank used as the last component of the scanner's termination measure:
/// the one step that advances neither the read position nor the start bound
/// is the acceptance step into `Found`.
pub open spec fn state_rank(s: ScanState) -> int {
    match s {
        ScanState::Found(_) => 0,
        _ => 1,
    }
}

/// One step of the scanner on the pixel at `pos`: returns the position at
/// which scanning resumes and the new state. A completed candidate that
/// passes validation becomes `Found` and scanning resumes at `end + 1`; one
/// that fails is discarded and scanning resumes at `start + 1` in `InBlack`,
/// so that a long leading black run cannot suppress a later pattern.
pub open spec fn spec_advance(state: ScanState, pos: usize, white: bool) -> (int, ScanState) {
    match state {
        ScanState::Found(_) => (
            pos + 1,
            if white {
                ScanState::InWhite
            } else {
                ScanState::InBlack
            },
        ),
        ScanState::InWhite => if white {
            (pos + 1, ScanState::InWhite)
        } else {
            (pos + 1, ScanState::BlackBorder1 { start: pos, black_border1_count: 1 })
        },
        ScanState::InBlack => (
            pos + 1,
            if white {
                ScanState::InWhite
            } else {
                ScanState::InBlack
            },
        ),
        ScanState::BlackBorder1 { start, black_border1_count } => if white {
            (
                pos + 1,
                ScanState::WhiteInner1 { start, black_border1_count, white_inner1_count: 1 },
            )
        } else {
            (
                pos + 1,
                ScanState::BlackBorder1 {
                    start,
                    black_border1_count: (black_border1_count + 1) as usize,
                },
            )
        },
        ScanState::WhiteInner1 { start, black_border1_count, white_inner1_count } => if white {
            (
                pos + 1,
                ScanState::WhiteInner1 {
                    start,
                    black_border1_count,
                    white_inner1_count: (white_inner1_count + 1) as usize,
                },
            )
        } else {
            (
                pos + 1,
                ScanState::BlackInner {
                    start,
                    black_border1_count,
                    white_inner1_count,
                    black_inner_count: 1,
                },
            )
        },
        ScanState::BlackInner {
            start,
            black_border1_count,
            white_inner1_count,
            black_inner_count,
        } => if white {
            (
                pos + 1,
                ScanState::WhiteInner2 {
                    start,
                    black_border1_count,
                    white_inner1_count,
                    black_inner_count,
                    white_inner2_count: 1,
                },
            )
        } else {
            (
                pos + 1,
                ScanState::BlackInner {
                    start,
                    black_border1_count,
                    white_inner1_count,
                    black_inner_count: (black_inner_count + 1) as usize,
                },
            )
        },
        ScanState::WhiteInner2 {
            start,
            black_border1_count,
            white_inner1_count,
            black_inner_count,
            white_inner2_count,
        } => if white {
            (
                pos + 1,
                ScanState::WhiteInner2 {
                    start,
                    black_border1_count,
                    white_inner1_count,
                    black_inner_count,
                    white_inner2_count: (white_inner2_count + 1) as usize,
                },
            )
        } else {
            (
                pos + 1,
                ScanState::BlackBorder2 {
                    start,
                    black_border1_count,
                    white_inner1_count,
                    black_inner_count,
                    white_inner2_count,
                    black_border2_count: 1,
                },
            )
        },
        ScanState::BlackBorder2 {
            start,
            black_border1_count,
            white_inner1_count,
            black_inner_count,
            white_inner2_count,
            black_border2_count,
        } => if white {
            let r = ScanResult {
                start,
                end: (pos - 1) as usize,
                black_border1_count,
                white_inner1_count,
                black_inner_count,
                white_inner2_count,
                black_border2_count,
            };
            if spec_is_valid_match(r) {
                (r.end + 1, ScanState::Found(r))
            } else {
                (start + 1, ScanState::InBlack)
            }
        } else {
            (
                pos + 1,
                ScanState::BlackBorder2 {
                    start,
                    black_border1_count,
                    white_inner1_count,
                    black_inner_count,
                    white_inner2_count,
                    black_border2_count: (black_border2_count + 1) as usize,
                },
            )
        },
    }
}

/// The scanner's step preserves well-formedness and moves its termination
/// measure down: every step either advances the start bound, advances the
/// read position, or is the acceptance step into `Found`.
proof fn lemma_advance_properties(state: ScanState, pos: usize, white: bool)
    requires
        wf_state(state, pos as int),
        pos < MAX_DIMENSION,
    ensures
        ({
            let step = spec_advance(state, pos, white);
            &&& wf_state(step.1, step.0)
            &&& step.0 <= pos + 1
            &&& state_start_bound(step.1, step.0) >= state_start_bound(state, pos as int)
            &&& (state_start_bound(step.1, step.0) > state_start_bound(state, pos as int)
                || step.0 > pos || state_rank(step.1) < state_rank(state))
            &&& state_start_bound(step.1, step.0) <= step.0
        }),
{
}

/// The scanner can be run from `pos` in `state` on `line`: the state is
/// well-formed for that position and the line fits an image dimension.
pub open spec fn scan_pre(line: Seq<bool>, pos: int, state: ScanState) -> bool {
    &&& wf_state(state, pos)
    &&& 0 <= pos
    &&& state_start_bound(state, pos) <= pos
    &&& line.len() <= MAX_DIMENSION
}

/// The sequence of validated scan results emitted on `line` when scanning
/// starts at `pos` in `state`: each step consumes or backtracks per
/// `spec_advance`, and every arrival in `Found` emits the contained result.
pub open spec fn spec_scan_results(line: Seq<bool>, pos: int, state: ScanState) -> Seq<ScanResult>
    decreases line.len() - state_start_bound(state, pos), line.len() - pos, state_rank(state),
        when scan_pre(line, pos, state) via spec_scan_results_decreases
{
    if pos >= line.len() {
        Seq::empty()
    } else {
        let step = spec_advance(state, pos as usize, line[pos]);
        let rest = spec_scan_results(line, step.0, step.1);
        if step.1 is Found {
            seq![step.1->Found_0] + rest
        } else {
            rest
        }
    }
}

#[via_fn]
proof fn spec_scan_results_decreases(line: Seq<bool>, pos: int, state: ScanState) {
    if pos < line.len() {
        lemma_advance_properties(state, pos as usize, line[pos]);
    }
}

/// Runs the scanner over one line of pixels (`true` = white) and returns
/// every validated 1:1:3:1:1 match, left to right.
#[verifier::loop_isolation(false)]
pub fn scan_line(line: &Vec<bool>) -> (results: Vec<ScanResult>)
    requires
        line.len() <= MAX_DIMENSION,
    ensures
        results@ == spec_scan_results(line@, 0, ScanState::InWhite),
        forall|i: int|
            0 <= i < results.len() ==> {
                &&& (#[trigger] results@[i]).wf()
                &&& spec_is_valid_match(results@[i])
                &&& results@[i].end < line.len()
            },
{
    let mut results: Vec<ScanResult> = Vec::new();
    let mut state = ScanState::InWhite;
    let mut pos: usize = 0;
    while pos < line.len()
        invariant
            pos <= line.len(),
            wf_state(state, pos as int),
            state_start_bound(state, pos as int) <= pos,
            spec_scan_results(line@, 0, ScanState::InWhite) == results@ + spec_scan_results(
                line@,
                pos as int,
                state,
            ),
            forall|i: int|
                0 <= i < results.len() ==> {
                    &&& (#[trigger] results@[i]).wf()
                    &&& spec_is_valid_match(results@[i])
                    &&& results@[i].end < line.len()
                },
        decreases
            line.len() - state_start_bound(state, pos as int),
            line.len() - pos,
            state_rank(state),
    {
        let ghost prev_results = results@;
        let ghost prev_pos = pos as int;
        let ghost prev_state = state;
        let (new_pos, new_state) = advance_state(&state, pos, line[pos]);
        pos = new_pos;
        state = new_state;
        proof {
            let step = spec_advance(prev_state, prev_pos as usize, line@[prev_pos]);
            let rest = spec_scan_results(line@, step.0, step.1);
            assert(spec_scan_results(line@, prev_pos, prev_state) == if step.1 is Found {
                seq![step.1->Found_0] + rest
            } else {
                rest
            });
        }
        if let ScanState::Found(r) = &state {
            results.push(*r);
            proof {
                assert(results@ =~= prev_results + seq![state->Found_0]);
                assert(prev_results + (seq![state->Found_0] + spec_scan_results(
                    line@,
                    pos as int,
                    state,
                )) =~= results@ + spec_scan_results(line@, pos as int, state));
            }
        }
    }
    results
}

/// Every result the scanner emits on a line is well-formed — its five runs
/// are non-empty and tile `start..=end` — and passes both the symmetry and
/// the ratio predicate.
pub proof fn lemma_scan_results_valid(line: Seq<bool>, pos: int, state: ScanState)
    requires
        wf_state(state, pos),
        0 <= pos,
        state_start_bound(state, pos) <= pos,
        line.len() <= MAX_DIMENSION,
    ensures
        forall|i: int|
            0 <= i < spec_scan_results(line, pos, state).len() ==> {
                &&& (#[trigger] spec_scan_results(line, pos, state)[i]).wf()
                &&& spec_is_valid_match(spec_scan_results(line, pos, state)[i])
            },
    decreases line.len() - state_start_bound(state, pos), line.len() - pos, state_rank(state),
{
    if pos < line.len() {
        lemma_advance_properties(state, pos as usize, line[pos]);
        let step = spec_advance(state, pos as usize, line[pos]);
        lemma_scan_results_valid(line, step.0, step.1);
        let rest = spec_scan_results(line, step.0, step.1);
        let all = spec_scan_results(line, pos, state);
        if step.1 is Found {
            assert forall|i: int| 0 <= i < all.len() implies {
                &&& (#[trigger] all[i]).wf()
                &&& spec_is_valid_match(all[i])
            } by {
                if i > 0 {
                    assert(all[i] == rest[i - 1]);
                }
            }
        } else {
            assert forall|i: int| 0 <= i < all.len() implies {
                &&& (#[trigger] all[i]).wf()
                &&& spec_is_valid_match(all[i])
            } by {
                assert(all[i] == rest[i]);
            }
        }
    }
}

/// A line of pixels that is entirely white produces no results at all,
/// whatever its length.
pub proof fn lemma_scan_all_white(line: Seq<bool>, pos: int)
    requires
        forall|i: int| 0 <= i < line.len() ==> line[i],
        0 <= pos,
        line.len() <= MAX_DIMENSION,
    ensures
        spec_scan_results(line, pos, ScanState::InWhite) =~= Seq::<ScanResult>::empty(),
    decreases line.len() - pos,
{
    if pos < line.len() {
        lemma_scan_all_white(line, pos + 1);
    }
}

/// A single detection of a finder pattern along one scan line: the pattern
/// midpoint in image coordinates and the estimated outer width of the
/// pattern, both in fixed-point units.
#[derive(Clone, Copy, Debug)]
pub struct PositionMarkerHint {
    pub center: (i64, i64),
    pub size: i64,
}

impl PositionMarkerHint {
    /// Both coordinates lie inside a bounded image and the size is a
    /// positive bounded width; every emitted hint satisfies this.
    pub open spec fn in_range(&self) -> bool {
        &&& 0 <= self.center.0 <= SCALE * MAX_DIMENSION
        &&& 0 <= self.center.1 <= SCALE * MAX_DIMENSION
        &&& 0 < self.size <= 3 * SCALE * MAX_DIMENSION
    }
}

/// Column `x` of the image as a line of whiteness flags, top to bottom.
pub open spec fn spec_column_line(img: &GrayImage, x: int) -> Seq<bool> {
    Seq::new(img.height as nat, |y: int| img.spec_pixel(x, y) == 255)
}

/// Row `y` of the image as a line of whiteness flags, left to right.
pub open spec fn spec_row_line(img: &GrayImage, y: int) -> Seq<bool> {
    Seq::new(img.width as nat, |x: int| img.spec_pixel(x, y) == 255)
}

/// The hint recorded for a scan result found along column `x`.
pub open spec fn spec_hint_from_column(x: int, r: ScanResult) -> PositionMarkerHint {
    PositionMarkerHint {
        center: ((SCALE * x) as i64, r.spec_middle() as i64),
        size: r.spec_size() as i64,
    }
}

/// The hint recorded for a scan result found along row `y`.
pub open spec fn spec_hint_from_row(y: int, r: ScanResult) -> PositionMarkerHint {
    PositionMarkerHint {
        center: (r.spec_middle() as i64, (SCALE * y) as i64),
        size: r.spec_size() as i64,
    }
}

/// All hints emitted by scanning column `x`.
pub open spec fn spec_column_hints(img: &GrayImage, x: int) -> Seq<PositionMarkerHint> {
    spec_scan_results(spec_column_line(img, x), 0, ScanState::InWhite).map_values(
        |r: ScanResult| spec_hint_from_column(x, r),
    )
}

/// All hints emitted by scanning row `y`.
pub open spec fn spec_row_hints(img: &GrayImage, y: int) -> Seq<PositionMarkerHint> {
    spec_scan_results(spec_row_line(img, y), 0, ScanState::InWhite).map_values(
        |r: ScanResult| spec_hint_from_row(y, r),
    )
}

/// Concatenation of the hints of columns `0..x`, in column order.
pub open spec fn spec_hints_columns_upto(img: &GrayImage, x: int) -> Seq<PositionMarkerHint>
    decreases x,
{
    if x <= 0 {
        Seq::empty()
    } else {
        spec_hints_columns_upto(img, x - 1) + spec_column_hints(img, x - 1)
    }
}

/// Concatenation of the hints of rows `0..y`, in row order.
pub open spec fn spec_hints_rows_upto(img: &GrayImage, y: int) -> Seq<PositionMarkerHint>
    decreases y,
{
    if y <= 0 {
        Seq::empty()
    } else {
        spec_hints_rows_upto(img, y - 1) + spec_row_hints(img, y - 1)
    }
}

/// All hints of an image: every column scanned top to bottom, then every
/// row scanned left to right.
pub open spec fn spec_detect_hints(img: &GrayImage) -> Seq<PositionMarkerHint> {
    spec_hints_columns_upto(img, img.width as int) + spec_hints_rows_upto(img, img.height as int)
}

/// Runs the scanner over every column and every row of the image and
/// collects a hint for each validated 1:1:3:1:1 match. Hints from both axes
/// are concatenated; the duplication reinforces clustering density at true
/// marker centers.
#[verifier::loop_isolation(false)]
pub fn detect_position_marker_hints(image: &GrayImage) -> (found: Vec<PositionMarkerHint>)
    requires
        image.wf(),
    ensures
        found@ == spec_detect_hints(image),
        forall|i: int| 0 <= i < found.len() ==> (#[trigger] found@[i]).in_range(),
{
    let mut found: Vec<PositionMarkerHint> = Vec::new();
    let mut x: usize = 0;
    while x < image.width
        invariant
            x <= image.width,
            found@ == spec_hints_columns_upto(image, x as int),
            forall|i: int| 0 <= i < found.len() ==> (#[trigger] found@[i]).in_range(),
        decreases image.width - x,
    {
        let mut line: Vec<bool> = Vec::new();
        let mut y: usize = 0;
        while y < image.height
            invariant
                y <= image.height,
                x < image.width,
                line@.len() == y,
                forall|j: int| 0 <= j < y ==> line@[j] == (image.spec_pixel(x as int, j) == 255),
            decreases image.height - y,
        {
            line.push(is_white(image.pixel(x, y)));
            y += 1;
        }
        proof {
            assert(line@ =~= spec_column_line(image, x as int));
        }
        let results = scan_line(&line);
        let ghost hints = spec_column_hints(image, x as int);
        let ghost before = found@;
        let mut i: usize = 0;
        while i < results.len()
            invariant
                i <= results.len(),
                found@ == before + hints.take(i as int),
                forall|k: int| 0 <= k < found.len() ==> (#[trigger] found@[k]).in_range(),
            decreases results.len() - i,
        {
            let r = &results[i];
            let middle = r.middle();
            let size = r.size();
            found.push(PositionMarkerHint { center: (256 * (x as i64), middle), size });
            proof {
                assert(hints[i as int] == spec_hint_from_column(x as int, results@[i as int]));
                assert(found@ =~= before + hints.take(i + 1));
            }
            i += 1;
        }
        proof {
            assert(hints.take(results@.len() as int) =~= hints);
            assert(found@ =~= spec_hints_columns_upto(image, x as int + 1));
        }
        x += 1;
    }
    let ghost columns_done = found@;
    let mut y: usize = 0;
    while y < image.height
        invariant
            y <= image.height,
            found@ == columns_done + spec_hints_rows_upto(image, y as int),
            forall|i: int| 0 <= i < found.len() ==> (#[trigger] found@[i]).in_range(),
        decreases image.height - y,
    {
        let mut line: Vec<bool> = Vec::new();
        let mut x2: usize = 0;
        while x2 < image.width
            invariant
                x2 <= image.width,
                y < image.height,
                line@.len() == x2,
                forall|j: int| 0 <= j < x2 ==> line@[j] == (image.spec_pixel(j, y as int) == 255),
            decreases image.width - x2,
        {
            line.push(is_white(image.pixel(x2, y)));
            x2 += 1;
        }
        proof {
            assert(line@ =~= spec_row_line(image, y as int));
        }
        let results = scan_line(&line);
        let ghost hints = spec_row_hints(image, y as int);
        let ghost before = found@;
        let mut i: usize = 0;
        while i < results.len()
            invariant
                i <= results.len(),
                found@ == before + hints.take(i as int),
                forall|k: int| 0 <= k < found.len() ==> (#[trigger] found@[k]).in_range(),
            decreases results.len() - i,
        {
            let r = &results[i];
            let middle = r.middle();
            let size = r.size();
            found.push(PositionMarkerHint { center: (middle, 256 * (y as i64)), size });
            proof {
                assert(hints[i as int] == spec_hint_from_row(y as int, results@[i as int]));
                assert(found@ =~= before + hints.take(i + 1));
            }
            i += 1;
        }
        proof {
            assert(hints.take(results@.len() as int) =~= hints);
            assert(found@ =~= columns_done + spec_hints_rows_upto(image, y as int + 1));
        }
        y += 1;
    }
    found
}

/// One step of the scanner on the pixel at `pos`. Returns the position at
/// which scanning resumes and the new state; whenever the new state is
/// `Found`, the contained result is well-formed and passes both validation
/// predicates.
pub fn advance_state(state: &ScanState, pos: usize, white: bool) -> (r: (usize, ScanState))
    requires
        wf_state(*state, pos as int),
        pos < MAX_DIMENSION,
    ensures
        (r.0 as int, r.1) == spec_advance(*state, pos, white),
        wf_state(r.1, r.0 as int),
        r.0 <= pos + 1,
        state_start_bound(r.1, r.0 as int) >= state_start_bound(*state, pos as int),
        state_start_bound(r.1, r.0 as int) > state_start_bound(*state, pos as int) || r.0 > pos
            || state_rank(r.1) < state_rank(*state),
        state_start_bound(r.1, r.0 as int) <= r.0,
{
    match *state {
        ScanState::Found(_) => (
            pos + 1,
            if white {
                ScanState::InWhite
            } else {
                ScanState::InBlack
            },
        ),
        ScanState::InWhite => if white {
            (pos + 1, ScanState::InWhite)
        } else {
            (pos + 1, ScanState::BlackBorder1 { start: pos, black_border1_count: 1 })
        },
        ScanState::InBlack => (
            pos + 1,
            if white {
                ScanState::InWhite
            } else {
                ScanState::InBlack
            },
        ),
        ScanState::BlackBorder1 { start, black_border1_count } => if white {
            (
                pos + 1,
                ScanState::WhiteInner1 { start, black_border1_count, white_inner1_count: 1 },
            )
        } else {
            (
                pos + 1,
                ScanState::BlackBorder1 { start, black_border1_count: black_border1_count + 1 },
            )
        },
        ScanState::WhiteInner1 { start, black_border1_count, white_inner1_count } => if white {
            (
                pos + 1,
                ScanState::WhiteInner1 {
                    start,
                    black_border1_count,
                    white_inner1_count: white_inner1_count + 1,
                },
            )
        } else {
            (
                pos + 1,
                ScanState::BlackInner {
                    start,
                    black_border1_count,
                    white_inner1_count,
                    black_inner_count: 1,
                },
            )
        },
        ScanState::BlackInner {
            start,
            black_border1_count,
            white_inner1_count,
            black_inner_count,
        } => if white {
            (
                pos + 1,
                ScanState::WhiteInner2 {
                    start,
                    black_border1_count,
                    white_inner1_count,
                    black_inner_count,
                    white_inner2_count: 1,
                },
            )
        } else {
            (
                pos + 1,
                ScanState::BlackInner {
                    start,
                    black_border1_count,
                    white_inner1_count,
                    black_inner_count: black_inner_count + 1,
                },
            )
        },
        ScanState::WhiteInner2 {
            start,
            black_border1_count,
            white_inner1_count,
            black_inner_count,
            white_inner2_count,
        } => if white {
            (
                pos + 1,
                ScanState::WhiteInner2 {
                    start,
                    black_border1_count,
                    white_inner1_count,
                    black_inner_count,
                    white_inner2_count: white_inner2_count + 1,
                },
            )
        } else {
            (
                pos + 1,
                ScanState::BlackBorder2 {
                    start,
                    black_border1_count,
                    white_inner1_count,
                    black_inner_count,
                    white_inner2_count,
                    black_border2_count: 1,
                },
            )
        },
        ScanState::BlackBorder2 {
            start,
            black_border1_count,
            white_inner1_count,
            black_inner_count,
            white_inner2_count,
            black_border2_count,
        } => if white {
            let scan_result = ScanResult {
                start,
                end: pos - 1,
                black_border1_count,
                white_inner1_count,
                black_inner_count,
                white_inner2_count,
                black_border2_count,
            };
            if is_valid_match(&scan_result) {
                (scan_result.end + 1, ScanState::Found(scan_result))
            } else {
                (start + 1, ScanState::InBlack)
            }
        } else {
            (
                pos + 1,
                ScanState::BlackBorder2 {
                    start,
                    black_border1_count,
                    white_inner1_count,
                    black_inner_count,
                    white_inner2_count,
                    black_border2_count: black_border2_count + 1,
                },
            )
        },
    }
}

/// The run widths of a candidate as they appear when the scan line is read
/// in the opposite direction: the two border runs and the two inner white
/// runs swap sides.
pub open spec fn spec_mirror_result(r: ScanResult) -> ScanResult {
    ScanResult {
        start: r.start,
        end: r.end,
        black_border1_count: r.black_border2_count,
        white_inner1_count: r.white_inner2_count,
        black_inner_count: r.black_inner_count,
        white_inner2_count: r.white_inner1_count,
        black_border2_count: r.black_border1_count,
    }
}

/// Reading a candidate in the opposite direction changes neither validation
/// predicate: the symmetry and ratio tests accept a candidate exactly when
/// they accept its mirror image.
pub proof fn lemma_valid_match_mirror(r: ScanResult)
    ensures
        spec_is_symmetric(spec_mirror_result(r)) == spec_is_symmetric(r),
        spec_ratios_match(spec_mirror_result(r)) == spec_ratios_match(r),
        spec_is_valid_match(spec_mirror_result(r)) == spec_is_valid_match(r),
{
}

/// Neighbourhood radius for fusing hints into markers: 4 pixels, in
/// fixed-point units.
pub const CLUSTER_EPS: i64 = 1024;

/// Minimum number of mutually close hints (a hint counts itself) that make
/// a cluster.
pub const CLUSTER_MIN_POINTS: usize = 9;

/// A fused position marker: the centroid of a cluster of hints, with the
/// mean of their estimated sizes.
#[derive(Clone, Copy, Debug, PartialEq)]
pub struct PositionMarker {
    pub center: (i64, i64),
    pub size: i64,
}

impl PositionMarker {
    /// Coordinates lie inside a bounded image and the size is a bounded
    /// non-negative width; every fused marker satisfies this.
    pub open spec fn in_range(&self) -> bool {
        &&& 0 <= self.center.0 <= SCALE * MAX_DIMENSION
        &&& 0 <= self.center.1 <= SCALE * MAX_DIMENSION
        &&& 0 <= self.size <= 3 * SCALE * MAX_DIMENSION
    }
}

/// The centers of a sequence of hints, as points for clustering.
pub open spec fn spec_hint_points(hints: Seq<PositionMarkerHint>) -> Seq<(i64, i64)> {
    hints.map_values(|h: PositionMarkerHint| h.center)
}

/// Hint `i` belongs to cluster `cid` (as a core or an edge point).
pub open spec fn spec_in_cluster(cls: Seq<Classification>, i: int, cid: int) -> bool {
    ||| (cls[i] is Core && cls[i]->Core_0 == cid)
    ||| (cls[i] is Edge && cls[i]->Edge_0 == cid)
}

/// The hints among the first `n` that belong to cluster `cid`, in input
/// order.
pub open spec fn spec_cluster_members(
    hints: Seq<PositionMarkerHint>,
    cls: Seq<Classification>,
    cid: int,
    n: int,
) -> Seq<PositionMarkerHint>
    decreases n,
{
    if n <= 0 {
        Seq::empty()
    } else {
        spec_cluster_members(hints, cls, cid, n - 1) + if spec_in_cluster(cls, n - 1, cid) {
            seq![hints[n - 1]]
        } else {
            Seq::empty()
        }
    }
}

/// Sum of the x coordinates of a sequence of hints.
pub open spec fn spec_sum_x(hints: Seq<PositionMarkerHint>) -> int
    decreases hints.len(),
{
    if hints.len() == 0 {
        0
    } else {
        spec_sum_x(hints.drop_last()) + hints.last().center.0
    }
}

/// Sum of the y coordinates of a sequence of hints.
pub open spec fn spec_sum_y(hints: Seq<PositionMarkerHint>) -> int
    decreases hints.len(),
{
    if hints.len() == 0 {
        0
    } else {
        spec_sum_y(hints.drop_last()) + hints.last().center.1
    }
}

/// Sum of the sizes of a sequence of hints.
pub open spec fn spec_sum_size(hints: Seq<PositionMarkerHint>) -> int
    decreases hints.len(),
{
    if hints.len() == 0 {
        0
    } else {
        spec_sum_size(hints.drop_last()) + hints.last().size
    }
}

/// The marker fused from a non-empty cluster: the arithmetic mean of the
/// member centers and of the member sizes (rounded down).
pub open spec fn spec_marker_of(members: Seq<PositionMarkerHint>) -> PositionMarker {
    let n = members.len() as int;
    PositionMarker {
        center: ((spec_sum_x(members) / n) as i64, (spec_sum_y(members) / n) as i64),
        size: (spec_sum_size(members) / n) as i64,
    }
}

/// The markers of the clusters `0..cid_count` that have at least one
/// member, in cluster order.
pub open spec fn spec_markers_upto(
    hints: Seq<PositionMarkerHint>,
    cls: Seq<Classification>,
    cid_count: int,
) -> Seq<PositionMarker>
    decreases cid_count,
{
    if cid_count <= 0 {
        Seq::empty()
    } else {
        let members = spec_cluster_members(hints, cls, cid_count - 1, hints.len() as int);
        spec_markers_upto(hints, cls, cid_count - 1) + if members.len() > 0 {
            seq![spec_marker_of(members)]
        } else {
            Seq::empty()
        }
    }
}

/// Fuses the hints into markers: classifies the hint centers with DBSCAN
/// (radius `CLUSTER_EPS`, density `CLUSTER_MIN_POINTS`), discards noise, and
/// returns one marker per non-empty cluster — the mean of its members'
/// centers and sizes — in cluster order.
#[verifier::loop_isolation(false)]
#[verifier::rlimit(60)]
pub fn cluster_position_marker_hints(hints: &Vec<PositionMarkerHint>) -> (markers: Vec<
    PositionMarker,
>)
    requires
        forall|i: int| 0 <= i < hints.len() ==> (#[trigger] hints@[i]).in_range(),
    ensures
        exists|cls: Seq<Classification>|
            #![trigger dbscan_post(spec_hint_points(hints@), CLUSTER_EPS as int, CLUSTER_MIN_POINTS as int, cls)]
            {
                &&& dbscan_post(
                    spec_hint_points(hints@),
                    CLUSTER_EPS as int,
                    CLUSTER_MIN_POINTS as int,
                    cls,
                )
                &&& markers@ == spec_markers_upto(hints@, cls, hints@.len() as int)
            },
        forall|i: int| 0 <= i < markers.len() ==> (#[trigger] markers@[i]).in_range(),
{
    let mut points: Vec<(i64, i64)> = Vec::new();
    let mut i: usize = 0;
    while i < hints.len()
        invariant
            i <= hints.len(),
            points@.len() == i,
            forall|k: int| 0 <= k < i ==> #[trigger] points@[k] == hints@[k].center,
        decreases hints.len() - i,
    {
        points.push(hints[i].center);
        i += 1;
    }
    proof {
        assert(points@ =~= spec_hint_points(hints@));
        assert forall|k: int| 0 <= k < points.len() implies crate::cluster::point_in_range(
            #[trigger] points@[k],
        ) by {
            assert(hints@[k].in_range());
        }
    }
    let classifications = dbscan_cluster(CLUSTER_EPS, CLUSTER_MIN_POINTS, &points);
    let ghost cls = classifications@;
    let mut markers: Vec<PositionMarker> = Vec::new();
    let mut cid: usize = 0;
    while cid < hints.len()
        invariant
            cid <= hints.len(),
            markers@ == spec_markers_upto(hints@, cls, cid as int),
            forall|i: int| 0 <= i < markers.len() ==> (#[trigger] markers@[i]).in_range(),
        decreases hints.len() - cid,
    {
        let mut members: Vec<PositionMarkerHint> = Vec::new();
        let mut j: usize = 0;
        while j < hints.len()
            invariant
                j <= hints.len(),
                members@ == spec_cluster_members(hints@, cls, cid as int, j as int),
            decreases hints.len() - j,
        {
            let matched = match classifications[j] {
                Classification::Core(cl) => cl == cid,
                Classification::Edge(cl) => cl == cid,
                Classification::Noise => false,
            };
            if matched {
                members.push(hints[j]);
                proof {
                    assert(members@ =~= spec_cluster_members(hints@, cls, cid as int, j as int)
                        + seq![hints@[j as int]]);
                }
            }
            j += 1;
        }
        let ghost member_seq = spec_cluster_members(hints@, cls, cid as int, hints@.len() as int);
        proof {
            assert forall|k: int| 0 <= k < members.len() implies (
            #[trigger] members@[k]).in_range() by {
                lemma_cluster_members_from_hints(hints@, cls, cid as int, hints@.len() as int, k);
            }
        }
        if members.len() > 0 {
            let count = members.len() as i128;
            let mut sx: i128 = 0;
            let mut sy: i128 = 0;
            let mut ss: i128 = 0;
            let mut t: usize = 0;
            while t < members.len()
                invariant
                    t <= members.len(),
                    forall|k: int| 0 <= k < members.len() ==> (#[trigger] members@[k]).in_range(),
                    sx == spec_sum_x(members@.take(t as int)),
                    sy == spec_sum_y(members@.take(t as int)),
                    ss == spec_sum_size(members@.take(t as int)),
                    0 <= sx <= t * 4194304,
                    0 <= sy <= t * 4194304,
                    0 <= ss <= t * 12582912,
                decreases members.len() - t,
            {
                proof {
                    assert(members@.take(t + 1).drop_last() =~= members@.take(t as int));
                }
                let m = &members[t];
                sx = sx + m.center.0 as i128;
                sy = sy + m.center.1 as i128;
                ss = ss + m.size as i128;
                t += 1;
            }
            proof {
                assert(members@.take(members@.len() as int) =~= members@);
                lemma_mean_bounds(sx as int, count as int, 4194304);
                lemma_mean_bounds(sy as int, count as int, 4194304);
                lemma_mean_bounds(ss as int, count as int, 12582912);
            }
            let marker = PositionMarker {
                center: ((sx / count) as i64, (sy / count) as i64),
                size: (ss / count) as i64,
            };
            markers.push(marker);
            proof {
                assert(marker == spec_marker_of(member_seq));
                assert(markers@ =~= spec_markers_upto(hints@, cls, cid as int)
                    + seq![spec_marker_of(member_seq)]);
            }
        }
        cid += 1;
    }
    proof {
        assert(dbscan_post(spec_hint_points(hints@), CLUSTER_EPS as int,
            CLUSTER_MIN_POINTS as int, cls));
    }
    markers
}

/// Every member of a cluster is one of the hints.
proof fn lemma_cluster_members_from_hints(
    hints: Seq<PositionMarkerHint>,
    cls: Seq<Classification>,
    cid: int,
    n: int,
    k: int,
)
    requires
        n <= hints.len(),
        0 <= k < spec_cluster_members(hints, cls, cid, n).len(),
        forall|i: int| 0 <= i < hints.len() ==> (#[trigger] hints[i]).in_range(),
    ensures
        spec_cluster_members(hints, cls, cid, n)[k].in_range(),
    decreases n,
{
    if n > 0 {
        let prev = spec_cluster_members(hints, cls, cid, n - 1);
        if k < prev.len() {
            lemma_cluster_members_from_hints(hints, cls, cid, n - 1, k);
        }
    }
}

/// The mean of a non-negative sum over `count` values bounded by `bound`
/// is itself between zero and `bound`.
proof fn lemma_mean_bounds(sum: int, count: int, bound: int)
    requires
        count > 0,
        0 <= bound,
        0 <= sum <= count * bound,
    ensures
        0 <= sum / count <= bound,
{
    vstd::arithmetic::div_mod::lemma_div_pos_is_pos(sum, count);
    vstd::arithmetic::div_mod::lemma_div_is_ordered(sum, count * bound, count);
    vstd::arithmetic::div_mod::lemma_div_multiples_vanish(bound, count);
}

/// Every pixel of the image is white.
pub open spec fn spec_all_white(img: &GrayImage) -> bool {
    forall|x: int, y: int|
        0 <= x < img.width && 0 <= y < img.height ==> #[trigger] img.spec_pixel(x, y) == 255
}

/// No column of an all-white image emits a hint.
proof fn lemma_all_white_columns(img: &GrayImage, x: int)
    requires
        img.wf(),
        spec_all_white(img),
        0 <= x <= img.width,
    ensures
        spec_hints_columns_upto(img, x) =~= Seq::<PositionMarkerHint>::empty(),
    decreases x,
{
    if x > 0 {
        lemma_all_white_columns(img, x - 1);
        assert forall|y: int| 0 <= y < spec_column_line(img, x - 1).len() implies #[trigger]
        spec_column_line(img, x - 1)[y] by {
            assert(img.spec_pixel(x - 1, y) == 255);
        }
        lemma_scan_all_white(spec_column_line(img, x - 1), 0);
        assert(spec_column_hints(img, x - 1) =~= Seq::<PositionMarkerHint>::empty());
    }
}

/// No row of an all-white image emits a hint.
proof fn lemma_all_white_rows(img: &GrayImage, y: int)
    requires
        img.wf(),
        spec_all_white(img),
        0 <= y <= img.height,
    ensures
        spec_hints_rows_upto(img, y) =~= Seq::<PositionMarkerHint>::empty(),
    decreases y,
{
    if y > 0 {
        lemma_all_white_rows(img, y - 1);
        assert forall|x: int| 0 <= x < spec_row_line(img, y - 1).len() implies #[trigger]
        spec_row_line(img, y - 1)[x] by {
            assert(img.spec_pixel(x, y - 1) == 255);
        }
        lemma_scan_all_white(spec_row_line(img, y - 1), 0);
        assert(spec_row_hints(img, y - 1) =~= Seq::<PositionMarkerHint>::empty());
    }
}

/// An image that is entirely white produces no hints at all, whatever its
/// dimensions.
pub proof fn lemma_all_white_image_no_hints(img: &GrayImage)
    requires
        img.wf(),
        spec_all_white(img),
    ensures
        spec_detect_hints(img) =~= Seq::<PositionMarkerHint>::empty(),
{
    lemma_all_white_columns(img, img.width as int);
    lemma_all_white_rows(img, img.height as int);
}

/// Detects the position markers of a binarized image: collects the scan
/// hints of every column and row, then fuses them into one marker per
/// cluster.
pub fn detect_position_markers(image: &GrayImage) -> (markers: Vec<PositionMarker>)
    requires
        image.wf(),
    ensures
        exists|cls: Seq<Classification>|
            #![trigger dbscan_post(spec_hint_points(spec_detect_hints(image)), CLUSTER_EPS as int, CLUSTER_MIN_POINTS as int, cls)]
            {
                &&& dbscan_post(
                    spec_hint_points(spec_detect_hints(image)),
                    CLUSTER_EPS as int,
                    CLUSTER_MIN_POINTS as int,
                    cls,
                )
                &&& markers@ == spec_markers_upto(
                    spec_detect_hints(image),
                    cls,
                    spec_detect_hints(image).len() as int,
                )
            },
        forall|i: int| 0 <= i < markers.len() ==> (#[trigger] markers@[i]).in_range(),
{
    let hints = detect_position_marker_hints(image);
    cluster_position_marker_hints(&hints)
}

} // verus!
