//! Areas of the terminal and the positions of scrollbars in them.

use vstd::prelude::*;

verus! {

/// The smaller of two integers.
pub open spec fn min(a: int, b: int) -> int {
    if a <= b {
        a
    } else {
        b
    }
}

/// The larger of two integers.
pub open spec fn max(a: int, b: int) -> int {
    if a >= b {
        a
    } else {
        b
    }
}

/// The difference of two integers, or zero where it is negative.
pub open spec fn minus(a: int, b: int) -> int {
    max(a - b, 0)
}

/// Whether a number lies between two others, or is one of them.
pub open spec fn between(low: int, n: int, high: int) -> bool {
    low <= n <= high
}

/// The sum of two integers, at most the largest `usize`.
pub open spec fn plus(a: int, b: int) -> int {
    min(a + b, usize::MAX as int)
}

/// The smaller of two lengths.
pub fn smaller(a: usize, b: usize) -> (out: usize)
    ensures
        out == min(a as int, b as int),
{
    if a <= b {
        a
    } else {
        b
    }
}

/// The larger of two lengths.
pub fn larger(a: usize, b: usize) -> (out: usize)
    ensures
        out == max(a as int, b as int),
{
    if a >= b {
        a
    } else {
        b
    }
}

/// A rectangle of terminal cells.
#[derive(Clone, Copy, Debug, PartialEq, Eq, Structural)]
pub struct Rect {
    pub x: u16,
    pub y: u16,
    pub width: u16,
    pub height: u16,
}

impl Default for Rect {
    fn default() -> (area: Self)
        ensures
            area == (Rect { x: 0, y: 0, width: 0, height: 0 }),
    {
        Rect { x: 0, y: 0, width: 0, height: 0 }
    }
}

impl Rect {
    /// The first column to the right of the area, at most the last one there is.
    pub open spec fn right_edge(self) -> int {
        min(self.x + self.width, u16::MAX as int)
    }

    /// The first row below the area, at most the last one there is.
    pub open spec fn bottom_edge(self) -> int {
        min(self.y + self.height, u16::MAX as int)
    }

    /// Whether the cell lies in the area.
    pub open spec fn covers(self, column: u16, row: u16) -> bool {
        self.x <= column < self.right_edge() && self.y <= row < self.bottom_edge()
    }

    /// Whether the cell lies in the area and not on its border.
    pub open spec fn encloses(self, column: u16, row: u16) -> bool {
        self.x < column < self.right_edge() - 1 && self.y < row < self.bottom_edge() - 1
    }

    /// An area with room for a scrollbar lies far enough from the last row of the terminal.
    pub open spec fn drawable(self) -> bool {
        self.height >= 3 ==> self.y + 3 <= u16::MAX
    }

    /// An area by its corner and its size.
    pub fn new(x: u16, y: u16, width: u16, height: u16) -> (area: Self)
        ensures
            area == (Rect { x, y, width, height }),
    {
        Rect { x, y, width, height }
    }

    /// The first column to the right of the area.
    pub fn right(&self) -> (column: u16)
        ensures
            column == self.right_edge(),
    {
        self.x.saturating_add(self.width)
    }

    /// The first row below the area.
    pub fn bottom(&self) -> (row: u16)
        ensures
            row == self.bottom_edge(),
    {
        self.y.saturating_add(self.height)
    }

    /// Whether the cell lies in the area.
    pub fn contains(&self, column: u16, row: u16) -> (inside: bool)
        ensures
            inside == self.covers(column, row),
    {
        self.x <= column && column < self.right() && self.y <= row && row < self.bottom()
    }

    /// The place of a cell relative to the inside of the border, for a cell that lies there.
    pub fn inner_position(&self, column: u16, row: u16) -> (place: Option<(u16, u16)>)
        ensures
            place == if self.encloses(column, row) {
                Some(((column - self.x - 1) as u16, (row - self.y - 1) as u16))
            } else {
                None
            },
    {
        if column <= self.x || row <= self.y {
            return None;
        }
        let right = self.right();
        let bottom = self.bottom();
        if right == 0 || bottom == 0 || column >= right - 1 || row >= bottom - 1 {
            return None;
        }
        Some((column - self.x - 1, row - self.y - 1))
    }
}

/// Whether `column` is the one that holds the scrollbar of an area: its last.
pub open spec fn on_scrollbar(area: Rect, column: u16) -> bool {
    area.width >= 2 && column == area.right_edge() - 1
}

/// Whether `column` is the one that holds the scrollbar of an area.
pub fn is_scrollbar_column(area: Rect, column: u16) -> (on: bool)
    ensures
        on == on_scrollbar(area, column),
{
    let right = area.right();
    area.width >= 2 && right > 0 && column == right - 1
}

/// The scroll position that a click in row `row` of a scrollbar asks for: the place of the row
/// in the track, scaled to the positions `0..=max_position`. The track is the height of the
/// area without its border.
pub open spec fn scroll_target(area: Rect, row: u16, max_position: int) -> int {
    if max_position == 0 || area.height < 3 {
        0
    } else {
        let top = area.y + 1;
        let bottom = area.bottom_edge() - 2;
        let held = min(max(row as int, top), bottom);
        min((held - top) * max_position, usize::MAX as int) / max(bottom - top, 1)
    }
}

/// The scroll position that a click in row `row` of a scrollbar asks for.
pub fn scrollbar_position_from_row(area: Rect, row: u16, max_position: usize) -> (position: usize)
    requires
        area.drawable(),
    ensures
        position == scroll_target(area, row, max_position as int),
{
    if max_position == 0 || area.height < 3 {
        return 0;
    }
    let top: u16 = area.y + 1;
    let bottom: u16 = area.bottom() - 2;
    let held: u16 = if row < top {
        top
    } else if row > bottom {
        bottom
    } else {
        row
    };
    let offset: u128 = (held - top) as u128;
    let track: usize = if bottom > top {
        (bottom - top) as usize
    } else {
        1
    };
    assert(0 <= offset * max_position <= 0xFFFF * 0xFFFF_FFFF_FFFF_FFFF) by (nonlinear_arith)
        requires
            0 <= offset <= 0xFFFF,
            0 <= max_position <= 0xFFFF_FFFF_FFFF_FFFF,
    ;
    let scaled: u128 = offset * (max_position as u128);
    let limited: usize = if scaled > usize::MAX as u128 {
        usize::MAX
    } else {
        scaled as usize
    };
    limited / track
}

/// The positions that a scrollbar reaches lie between the start and the end, the ends of the
/// track reach both, and a lower row never gives a smaller position.
pub proof fn scrollbar_covers_the_range(area: Rect, row: u16, lower: u16, max_position: int)
    requires
        area.drawable(),
        0 <= max_position,
        max_position * u16::MAX <= usize::MAX,
        row <= lower,
    ensures
        0 <= scroll_target(area, row, max_position) <= max_position,
        scroll_target(area, row, max_position) <= scroll_target(area, lower, max_position),
        row <= area.y + 1 ==> scroll_target(area, row, max_position) == 0,
        area.height >= 3 && area.y + 1 < area.bottom_edge() - 2 <= lower ==> scroll_target(
            area,
            lower,
            max_position,
        ) == max_position,
{
    if max_position != 0 && area.height >= 3 {
        let top = area.y + 1;
        let bottom = area.bottom_edge() - 2;
        let track = max(bottom - top, 1);
        let a = min(max(row as int, top), bottom) - top;
        let b = min(max(lower as int, top), bottom) - top;
        assert(0 <= a <= b <= track);
        assert(0 <= a * max_position <= b * max_position <= track * max_position) by (nonlinear_arith)
            requires
                0 <= a <= b <= track,
                0 <= max_position,
        ;
        assert(track * max_position <= max_position * u16::MAX) by (nonlinear_arith)
            requires
                track <= u16::MAX,
                0 <= max_position,
        ;
        vstd::arithmetic::div_mod::lemma_div_is_ordered(a * max_position, b * max_position, track);
        vstd::arithmetic::div_mod::lemma_div_is_ordered(b * max_position, track * max_position, track);
        vstd::arithmetic::div_mod::lemma_div_multiples_vanish(max_position, track);
        vstd::arithmetic::div_mod::lemma_div_pos_is_pos(a * max_position, track);
        assert(a == 0 ==> a * max_position == 0) by (nonlinear_arith);
        assert(track * max_position == max_position * track) by (nonlinear_arith);
    }
}

/// An area covers the cells from its corner on, as many columns and rows as it is wide and high; its
/// border is what lies at its edges, and its scrollbar is its last column.
pub proof fn areas_cover_their_cells(area: Rect, column: u16, row: u16)
    requires
        area.x + area.width <= u16::MAX,
        area.y + area.height <= u16::MAX,
    ensures
        area.covers(column, row) <==> between(0, column - area.x, area.width - 1) && between(
            0,
            row - area.y,
            area.height - 1,
        ),
        area.encloses(column, row) <==> between(1, column - area.x, area.width - 2) && between(
            1,
            row - area.y,
            area.height - 2,
        ),
        on_scrollbar(area, column) <==> area.width >= 2 && column - area.x == area.width - 1,
{
}

/// A click into a scrollbar goes to the line that is as far along in what is scrolled as the click is in
/// the track: of all lines at or before that place the nearest.
pub proof fn scrollbars_are_proportional(area: Rect, row: u16, max_position: int)
    requires
        area.drawable(),
        area.height >= 4,
        area.y + area.height <= u16::MAX,
        0 <= max_position,
        max_position * u16::MAX <= usize::MAX,
        between(area.y + 1, row as int, area.y + area.height - 2),
    ensures
        ({
            let to = scroll_target(area, row, max_position);
            let along = row - area.y - 1;
            let track = area.height - 3;
            to * track <= along * max_position < to * track + track
        }),
{
    let along = row - area.y - 1;
    let track = area.height - 3;
    assert(0 <= along * max_position <= max_position * u16::MAX) by (nonlinear_arith)
        requires
            0 <= along <= u16::MAX,
            0 <= max_position,
    ;
    vstd::arithmetic::div_mod::lemma_fundamental_div_mod(along * max_position, track);
    vstd::arithmetic::div_mod::lemma_mod_bound(along * max_position, track);
    let to = along * max_position / track;
    assert(track * to == to * track) by (nonlinear_arith);
    assert(max_position == 0 ==> along * max_position == 0) by (nonlinear_arith);
    assert(max_position == 0 ==> 0 * track == 0);
}

} // verus!
