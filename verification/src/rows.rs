//! The rows of the viewer: how the bytes of a file are laid out in lines, and which line holds
//! an offset.

use vstd::prelude::*;

use crate::geometry;
use crate::geometry::smaller;
use crate::model::DEFAULT_BYTES_PER_ROW;

verus! {

/// What the viewer shows.
#[derive(Clone, Copy, Debug, PartialEq, Eq, Structural)]
pub struct ViewerSettings {
    pub show_ascii: bool,
    pub bytes_per_row: usize,
    pub uppercase_hex: bool,
    pub show_offsets: bool,
    pub show_sidebar: bool,
    pub compress_repeated_rows: bool,
    pub show_overlays: bool,
}

impl ViewerSettings {
    /// The settings of a new viewer.
    pub open spec fn initial() -> ViewerSettings {
        ViewerSettings {
            show_ascii: true,
            bytes_per_row: DEFAULT_BYTES_PER_ROW,
            uppercase_hex: true,
            show_offsets: true,
            show_sidebar: true,
            compress_repeated_rows: false,
            show_overlays: true,
        }
    }

    /// A row holds one of the two numbers of bytes that can be chosen.
    pub open spec fn wf(self) -> bool {
        self.bytes_per_row == 16 || self.bytes_per_row == 32
    }

    /// The settings after the one in row `active` of the settings editor was switched.
    pub open spec fn toggled(self, active: int) -> ViewerSettings {
        if active == 0 {
            ViewerSettings { show_ascii: !self.show_ascii, ..self }
        } else if active == 1 {
            ViewerSettings {
                bytes_per_row: if self.bytes_per_row == 16 {
                    32
                } else {
                    16
                },
                ..self
            }
        } else if active == 2 {
            ViewerSettings { uppercase_hex: !self.uppercase_hex, ..self }
        } else if active == 3 {
            ViewerSettings { show_offsets: !self.show_offsets, ..self }
        } else if active == 4 {
            ViewerSettings { show_sidebar: !self.show_sidebar, ..self }
        } else if active == 5 {
            ViewerSettings { compress_repeated_rows: !self.compress_repeated_rows, ..self }
        } else if active == 6 {
            ViewerSettings { show_overlays: !self.show_overlays, ..self }
        } else {
            self
        }
    }

    /// Switches the setting in row `active` of the settings editor.
    pub fn toggle(&mut self, active: usize)
        ensures
            *final(self) == old(self).toggled(active as int),
    {
        if active == 0 {
            self.show_ascii = !self.show_ascii;
        } else if active == 1 {
            self.bytes_per_row = if self.bytes_per_row == 16 {
                32
            } else {
                16
            };
        } else if active == 2 {
            self.uppercase_hex = !self.uppercase_hex;
        } else if active == 3 {
            self.show_offsets = !self.show_offsets;
        } else if active == 4 {
            self.show_sidebar = !self.show_sidebar;
        } else if active == 5 {
            self.compress_repeated_rows = !self.compress_repeated_rows;
        } else if active == 6 {
            self.show_overlays = !self.show_overlays;
        }
    }
}

impl Default for ViewerSettings {
    fn default() -> (settings: Self)
        ensures
            settings == ViewerSettings::initial(),
    {
        ViewerSettings {
            show_ascii: true,
            bytes_per_row: DEFAULT_BYTES_PER_ROW,
            uppercase_hex: true,
            show_offsets: true,
            show_sidebar: true,
            compress_repeated_rows: false,
            show_overlays: true,
        }
    }
}

/// A setting that is switched twice is as it was.
pub proof fn toggling_twice_changes_nothing(settings: ViewerSettings, active: int)
    requires
        settings.wf(),
    ensures
        settings.toggled(active).toggled(active) == settings,
        settings.toggled(active).wf(),
{
}

/// A line of the viewer: the bytes from an offset on, or a run of lines that all repeat one
/// byte.
#[derive(Clone, Copy, Debug, PartialEq, Eq, Structural)]
pub enum DisplayRow {
    Bytes { offset: usize },
    Repeated { start: usize, end: usize, byte: u8, physical_rows: usize },
}

impl DisplayRow {
    /// The first offset of the line.
    pub open spec fn first(self) -> int {
        match self {
            DisplayRow::Bytes { offset } => offset as int,
            DisplayRow::Repeated { start, .. } => start as int,
        }
    }

    /// The last offset of the line in a file of `length` bytes.
    pub open spec fn last(self, width: int, length: int) -> int {
        match self {
            DisplayRow::Bytes { offset } => geometry::minus(
                geometry::min(geometry::plus(offset as int, width), length),
                1,
            ),
            DisplayRow::Repeated { end, .. } => end as int,
        }
    }

    /// The first offset of the line.
    pub fn start(self) -> (offset: usize)
        ensures
            offset == self.first(),
    {
        match self {
            DisplayRow::Bytes { offset } => offset,
            DisplayRow::Repeated { start, .. } => start,
        }
    }

    /// The last offset of the line in a file of `byte_len` bytes.
    pub fn end(self, bytes_per_row: usize, byte_len: usize) -> (offset: usize)
        ensures
            offset == self.last(bytes_per_row as int, byte_len as int),
    {
        match self {
            DisplayRow::Bytes { offset } => {
                smaller(offset.saturating_add(bytes_per_row), byte_len).saturating_sub(1)
            },
            DisplayRow::Repeated { end, .. } => end,
        }
    }
}

/// Whether a full line of `width` bytes starts at `at` and holds `byte` throughout.
pub open spec fn repeats(bytes: Seq<u8>, width: int, at: int, byte: u8) -> bool {
    at + width <= bytes.len() && forall|i: int| at <= i < at + width ==> #[trigger] bytes[i] == byte
}

/// The offset at which the full lines that hold `byte` throughout end, from the line at `at` on.
pub open spec fn run_end(bytes: Seq<u8>, width: int, at: int, byte: u8) -> int
    decreases bytes.len() - at,
{
    if 0 <= at && 0 < width && repeats(bytes, width, at, byte) {
        run_end(bytes, width, at + width, byte)
    } else {
        at
    }
}

/// The number of lines of one byte in a row that are shown as one.
pub const SHORTEST_RUN: usize = 3;

/// The lines of the viewer from offset `at` on. With `compress`, three or more full lines in a
/// row that hold one byte throughout are a single line.
pub open spec fn rows_from(bytes: Seq<u8>, width: int, compress: bool, at: int) -> Seq<DisplayRow>
    decreases geometry::minus(bytes.len() as int, at),
    when 0 <= at && 0 < width
    via rows_from_decreases
{
    if at >= bytes.len() {
        Seq::empty()
    } else {
        let end = run_end(bytes, width, at, bytes[at]);
        if compress && end - at >= SHORTEST_RUN * width {
            seq![
                DisplayRow::Repeated {
                    start: at as usize,
                    end: (end - 1) as usize,
                    byte: bytes[at],
                    physical_rows: ((end - at) / width) as usize,
                },
            ] + rows_from(bytes, width, compress, end)
        } else {
            seq![DisplayRow::Bytes { offset: at as usize }] + rows_from(
                bytes,
                width,
                compress,
                at + width,
            )
        }
    }
}

#[via_fn]
proof fn rows_from_decreases(bytes: Seq<u8>, width: int, compress: bool, at: int) {
    lemma_run_end(bytes, width, at, bytes[at]);
    assert(SHORTEST_RUN * width >= width);
}

/// The lines of a file under some settings.
pub open spec fn rows_of(bytes: Seq<u8>, settings: ViewerSettings) -> Seq<DisplayRow> {
    rows_from(bytes, settings.bytes_per_row as int, settings.compress_repeated_rows, 0)
}

/// A run is a whole number of lines inside the file that hold one byte throughout.
pub proof fn lemma_run_end(bytes: Seq<u8>, width: int, at: int, byte: u8)
    requires
        0 <= at,
        0 < width,
    ensures
        at <= run_end(bytes, width, at, byte),
        run_end(bytes, width, at, byte) == at || run_end(bytes, width, at, byte) <= bytes.len(),
        (run_end(bytes, width, at, byte) - at) % width == 0,
        forall|i: int| at <= i < run_end(bytes, width, at, byte) ==> #[trigger] bytes[i] == byte,
    decreases bytes.len() - at,
{
    if repeats(bytes, width, at, byte) {
        lemma_run_end(bytes, width, at + width, byte);
        let end = run_end(bytes, width, at + width, byte);
        vstd::arithmetic::div_mod::lemma_mod_add_multiples_vanish(end - at - width, width);
    } else {
        assert(0int % width == 0) by (nonlinear_arith)
            requires
                0 < width,
        ;
    }
}

/// Whether lines are laid out from offset `at` to the end of the file: each starts where the one
/// before it ends, and a line that stands for a run stands for three or more full lines of one
/// byte.
pub open spec fn tiled(rows: Seq<DisplayRow>, bytes: Seq<u8>, width: int, at: int) -> bool {
    let length = bytes.len() as int;
    &&& rows.len() == 0 <==> at >= length
    &&& rows.len() > 0 ==> rows[0].first() == at && rows.last().last(width, length) == length - 1
    &&& forall|i: int|
        0 <= i < rows.len() ==> at <= #[trigger] rows[i].first() <= rows[i].last(width, length)
            < length
    &&& forall|i: int|
        0 <= i < rows.len() - 1 ==> #[trigger] rows[i].last(width, length) + 1
            == rows[i + 1].first()
    &&& forall|i: int, j: int|
        #![trigger rows[i].last(width, length), rows[j].first()]
        0 <= i < j < rows.len() ==> rows[i].last(width, length) < rows[j].first()
    &&& forall|i: int|
        0 <= i < rows.len() ==> match #[trigger] rows[i] {
            DisplayRow::Bytes { offset } => rows[i].last(width, length) < offset + width,
            DisplayRow::Repeated { start, end, byte, physical_rows } => {
                &&& physical_rows >= SHORTEST_RUN
                &&& end + 1 - start == physical_rows * width
                &&& forall|k: int| start <= k <= end ==> #[trigger] bytes[k] == byte
            },
        }
}

/// The lines of the viewer divide the file among them, in order and without a gap.
pub proof fn rows_tile_the_file(bytes: Seq<u8>, width: int, compress: bool, at: int)
    requires
        0 <= at,
        0 < width,
        bytes.len() <= usize::MAX,
    ensures
        tiled(rows_from(bytes, width, compress, at), bytes, width, at),
    decreases geometry::minus(bytes.len() as int, at),
{
    let rows = rows_from(bytes, width, compress, at);
    let length = bytes.len() as int;
    if at < length {
        let end = run_end(bytes, width, at, bytes[at]);
        lemma_run_end(bytes, width, at, bytes[at]);
        let next = if compress && end - at >= SHORTEST_RUN * width {
            end
        } else {
            at + width
        };
        let rest = rows_from(bytes, width, compress, next);
        assert(SHORTEST_RUN * width >= width);
        rows_tile_the_file(bytes, width, compress, next);
        assert(rows =~= seq![rows[0]] + rest);
        if next == end && compress && end - at >= SHORTEST_RUN * width {
            vstd::arithmetic::div_mod::lemma_fundamental_div_mod(end - at, width);
            let count = (end - at) / width;
            assert(width * count == count * width) by (nonlinear_arith);
            assert(count >= SHORTEST_RUN) by (nonlinear_arith)
                requires
                    count * width >= SHORTEST_RUN * width,
                    width > 0,
            ;
            assert(count <= length) by (nonlinear_arith)
                requires
                    count * width <= length,
                    width > 0,
                    count >= 0,
            ;
        }
        assert(rows[0].last(width, length) + 1 == geometry::min(next, length));
        assert forall|i: int| 0 <= i < rows.len() - 1 implies #[trigger] rows[i].last(
            width,
            length,
        ) + 1 == rows[i + 1].first() by {
            if i > 0 {
                assert(rows[i] == rest[i - 1]);
                assert(rows[i + 1] == rest[i]);
                assert(rest[i - 1].last(width, length) + 1 == rest[i - 1 + 1].first());
            } else {
                assert(rows[1] == rest[0]);
            }
        }
        assert forall|i: int, j: int|
            #![trigger rows[i].last(width, length), rows[j].first()]
            0 <= i < j < rows.len() implies rows[i].last(width, length) < rows[j].first() by {
            assert(rows[j] == rest[j - 1]);
            if i > 0 {
                assert(rows[i] == rest[i - 1]);
                assert(rest[i - 1].last(width, length) < rest[j - 1].first());
            } else {
                assert(rest[j - 1].first() >= next);
            }
        }
        assert forall|i: int| 0 <= i < rows.len() implies at <= #[trigger] rows[i].first()
            <= rows[i].last(width, length) < length by {
            if i > 0 {
                assert(rows[i] == rest[i - 1]);
                assert(next <= rest[i - 1].first());
            }
        }
        assert forall|i: int| 0 <= i < rows.len() implies match #[trigger] rows[i] {
            DisplayRow::Bytes { offset } => rows[i].last(width, length) < offset + width,
            DisplayRow::Repeated { start, end, byte, physical_rows } => {
                &&& physical_rows >= SHORTEST_RUN
                &&& end + 1 - start == physical_rows * width
                &&& forall|k: int| start <= k <= end ==> #[trigger] bytes[k] == byte
            },
        } by {
            if i > 0 {
                assert(rows[i] == rest[i - 1]);
            }
        }
        if rest.len() > 0 {
            assert(rows.last() == rest.last());
        }
    }
}

/// Whether a full line of `width` bytes at `at` holds `byte` throughout.
fn line_repeats(bytes: &Vec<u8>, width: usize, at: usize, byte: u8) -> (all: bool)
    requires
        at <= bytes.len(),
    ensures
        all == repeats(bytes@, width as int, at as int, byte),
{
    if bytes.len() - at < width {
        return false;
    }
    let mut i: usize = at;
    while i < at + width
        invariant
            at <= i <= at + width <= bytes.len(),
            forall|k: int| at <= k < i ==> #[trigger] bytes[k] == byte,
        decreases at + width - i,
    {
        if bytes[i] != byte {
            assert(bytes@[i as int] != byte);
            return false;
        }
        i = i + 1;
    }
    true
}

/// The lines of a file under some settings.
pub fn build_rows(bytes: &Vec<u8>, settings: ViewerSettings) -> (rows: Vec<DisplayRow>)
    requires
        settings.wf(),
    ensures
        rows@ == rows_of(bytes@, settings),
{
    let width: usize = settings.bytes_per_row;
    let compress = settings.compress_repeated_rows;
    let length: usize = bytes.len();
    let mut rows: Vec<DisplayRow> = Vec::new();
    let mut at: usize = 0;
    assert(rows@ + rows_of(bytes@, settings) =~= rows_of(bytes@, settings));
    while at < length
        invariant
            at <= length == bytes.len(),
            width == 16 || width == 32,
            rows@ + rows_from(bytes@, width as int, compress, at as int) == rows_from(
                bytes@,
                width as int,
                compress,
                0,
            ),
        decreases length - at,
    {
        let byte: u8 = bytes[at];
        let mut end: usize = at;
        if compress {
            while line_repeats(bytes, width, end, byte)
                invariant
                    at <= end <= length == bytes.len(),
                    width == 16 || width == 32,
                    run_end(bytes@, width as int, end as int, byte) == run_end(
                        bytes@,
                        width as int,
                        at as int,
                        byte,
                    ),
                ensures
                    at <= end <= length,
                    end == run_end(bytes@, width as int, at as int, byte),
                decreases length - end,
            {
                end = end + width;
            }
        }
        let ghost before = rows@;
        let ghost tail = rows_from(bytes@, width as int, compress, at as int);
        let next: usize;
        if compress && end - at >= SHORTEST_RUN * width {
            rows.push(
                DisplayRow::Repeated {
                    start: at,
                    end: end - 1,
                    byte,
                    physical_rows: (end - at) / width,
                },
            );
            next = end;
        } else {
            rows.push(DisplayRow::Bytes { offset: at });
            next = if length - at > width {
                at + width
            } else {
                length
            };
        }
        proof {
            let rest = rows_from(bytes@, width as int, compress, next as int);
            if next == length {
                assert(rest =~= Seq::<DisplayRow>::empty());
                assert(rows_from(bytes@, width as int, compress, at + width) =~= Seq::<
                    DisplayRow,
                >::empty() || at + width < length);
            }
            assert(tail =~= seq![rows@.last()] + rest);
            assert(rows@ + rest =~= before + tail);
        }
        at = next;
    }
    assert(rows@ + rows_from(bytes@, width as int, compress, at as int) =~= rows@);
    rows
}

/// The first line from `from` on that ends at or after an offset, or the number of lines.
pub open spec fn first_row(
    rows: Seq<DisplayRow>,
    width: int,
    length: int,
    offset: int,
    from: int,
) -> int
    decreases rows.len() - from,
{
    if from >= rows.len() || rows[from].last(width, length) >= offset {
        from
    } else {
        first_row(rows, width, length, offset, from + 1)
    }
}

/// The line that holds an offset, or the last line where the offset lies beyond the file.
pub open spec fn row_for(rows: Seq<DisplayRow>, width: int, length: int, offset: int) -> int {
    geometry::min(
        first_row(rows, width, length, offset, 0),
        geometry::minus(rows.len() as int, 1),
    )
}

proof fn lemma_first_row(
    rows: Seq<DisplayRow>,
    width: int,
    length: int,
    offset: int,
    from: int,
    at: int,
)
    requires
        0 <= from <= at <= rows.len(),
        forall|i: int| from <= i < at ==> #[trigger] rows[i].last(width, length) < offset,
        at < rows.len() ==> rows[at].last(width, length) >= offset,
    ensures
        first_row(rows, width, length, offset, from) == at,
    decreases at - from,
{
    if from < at {
        assert(rows[from].last(width, length) < offset);
        lemma_first_row(rows, width, length, offset, from + 1, at);
    }
}

/// The line that holds an offset, found by halving.
pub fn find_row(
    rows: &Vec<DisplayRow>,
    bytes: &Vec<u8>,
    settings: ViewerSettings,
    offset: usize,
) -> (row: usize)
    requires
        settings.wf(),
        rows@ == rows_of(bytes@, settings),
    ensures
        row == row_for(rows@, settings.bytes_per_row as int, bytes@.len() as int, offset as int),
{
    let width: usize = settings.bytes_per_row;
    let length: usize = bytes.len();
    proof {
        rows_tile_the_file(bytes@, width as int, settings.compress_repeated_rows, 0);
    }
    let mut low: usize = 0;
    let mut high: usize = rows.len();
    while low < high
        invariant
            low <= high <= rows.len(),
            length == bytes.len(),
            tiled(rows@, bytes@, width as int, 0),
            forall|i: int|
                0 <= i < low ==> #[trigger] rows@[i].last(width as int, length as int) < offset,
            high < rows.len() ==> rows@[high as int].last(width as int, length as int) >= offset,
        decreases high - low,
    {
        let middle: usize = low + (high - low) / 2;
        if rows[middle].end(width, length) < offset {
            assert forall|i: int| 0 <= i < middle + 1 implies #[trigger] rows@[i].last(
                width as int,
                length as int,
            ) < offset by {
                if i < middle {
                    assert(rows@[i].last(width as int, length as int) < rows@[middle as int].first());
                }
            }
            low = middle + 1;
        } else {
            high = middle;
        }
    }
    proof {
        lemma_first_row(rows@, width as int, length as int, offset as int, 0, low as int);
    }
    smaller(low, rows.len().saturating_sub(1))
}

/// Every offset of the file stands in the line that is looked up for it, and in no other.
pub proof fn row_lookup_is_exact(bytes: Seq<u8>, settings: ViewerSettings, offset: int)
    requires
        settings.wf(),
        0 <= offset < bytes.len() <= usize::MAX,
    ensures
        ({
            let rows = rows_of(bytes, settings);
            let width = settings.bytes_per_row as int;
            let row = row_for(rows, width, bytes.len() as int, offset);
            &&& 0 <= row < rows.len()
            &&& rows[row].first() <= offset <= rows[row].last(width, bytes.len() as int)
            &&& forall|other: int|
                0 <= other < rows.len() && (#[trigger] rows[other].first()) <= offset
                    <= rows[other].last(width, bytes.len() as int) ==> other == row
        }),
{
    let rows = rows_of(bytes, settings);
    let width = settings.bytes_per_row as int;
    let length = bytes.len() as int;
    rows_tile_the_file(bytes, width, settings.compress_repeated_rows, 0);
    let row = lemma_row_of(rows, bytes, width, offset, 0);
    assert forall|i: int| 0 <= i < row implies #[trigger] rows[i].last(width, length) < offset by {
        assert(rows[i].last(width, length) < rows[row].first());
    }
    lemma_first_row(rows, width, length, offset, 0, row);
    assert forall|other: int|
        0 <= other < rows.len() && (#[trigger] rows[other].first()) <= offset <= rows[other].last(
            width,
            length,
        ) implies other == row by {
        if other < row {
            assert(rows[other].last(width, length) < rows[row].first());
        } else if other > row {
            assert(rows[row].last(width, length) < rows[other].first());
        }
    }
}

proof fn lemma_row_of(
    rows: Seq<DisplayRow>,
    bytes: Seq<u8>,
    width: int,
    offset: int,
    from: int,
) -> (row: int)
    requires
        tiled(rows, bytes, width, 0),
        0 <= from < rows.len(),
        rows[from].first() <= offset < bytes.len(),
    ensures
        0 <= row < rows.len(),
        rows[row].first() <= offset <= rows[row].last(width, bytes.len() as int),
    decreases rows.len() - from,
{
    if offset <= rows[from].last(width, bytes.len() as int) {
        from
    } else {
        assert(from + 1 < rows.len());
        assert(rows[from].last(width, bytes.len() as int) + 1 == rows[from + 1].first());
        lemma_row_of(rows, bytes, width, offset, from + 1)
    }
}

/// Whether a line that stands for a run could not stand for more, and a line that stands by itself
/// is not the first of three full lines of one byte.
pub open spec fn compressed_row(row: DisplayRow, bytes: Seq<u8>, width: int, at: int) -> bool {
    match row {
        DisplayRow::Repeated { start, end, byte, .. } => {
            &&& !repeats(bytes, width, end + 1, byte)
            &&& start >= at + width ==> !repeats(bytes, width, start - width, byte)
        },
        DisplayRow::Bytes { offset } => {
            let byte = bytes[offset as int];
            ||| !repeats(bytes, width, offset as int, byte)
            ||| !repeats(bytes, width, offset + width, byte)
            ||| !repeats(bytes, width, offset + 2 * width, byte)
        },
    }
}

proof fn lemma_run_stops(bytes: Seq<u8>, width: int, at: int, byte: u8)
    requires
        0 <= at,
        0 < width,
    ensures
        !repeats(bytes, width, run_end(bytes, width, at, byte), byte),
    decreases bytes.len() - at,
{
    if repeats(bytes, width, at, byte) {
        lemma_run_stops(bytes, width, at + width, byte);
    }
}

/// A line stands for a run that is as long as it can be, and every run that is long enough is
/// shown as one line.
pub proof fn runs_are_maximal(bytes: Seq<u8>, width: int, at: int)
    requires
        0 <= at,
        0 < width,
        bytes.len() <= usize::MAX,
    ensures
        forall|i: int|
            0 <= i < rows_from(bytes, width, true, at).len() ==> compressed_row(
                #[trigger] rows_from(bytes, width, true, at)[i],
                bytes,
                width,
                at,
            ),
    decreases geometry::minus(bytes.len() as int, at),
{
    let rows = rows_from(bytes, width, true, at);
    if at < bytes.len() {
        let byte = bytes[at];
        let end = run_end(bytes, width, at, byte);
        lemma_run_end(bytes, width, at, byte);
        lemma_run_stops(bytes, width, at, byte);
        let long = end - at >= SHORTEST_RUN * width;
        let next = if long {
            end
        } else {
            at + width
        };
        assert(SHORTEST_RUN * width >= width);
        let rest = rows_from(bytes, width, true, next);
        runs_are_maximal(bytes, width, next);
        assert(rows =~= seq![rows[0]] + rest);
        assert(!long ==> !(repeats(bytes, width, at, byte) && repeats(bytes, width, at + width, byte)
            && repeats(bytes, width, at + 2 * width, byte))) by {
            reveal_with_fuel(run_end, 4);
            if repeats(bytes, width, at, byte) && repeats(bytes, width, at + width, byte)
                && repeats(bytes, width, at + 2 * width, byte) {
                lemma_run_end(bytes, width, at + 3 * width, byte);
            }
        }
        assert forall|i: int| 0 <= i < rows.len() implies compressed_row(
            #[trigger] rows[i],
            bytes,
            width,
            at,
        ) by {
            if i > 0 {
                assert(rows[i] == rest[i - 1]);
                if let DisplayRow::Repeated { start, byte: other, .. } = rows[i] {
                    rows_tile_the_file(bytes, width, true, next);
                    assert(rest[i - 1].first() >= next);
                    if start < next + width {
                        lemma_run_begins(bytes, width, next, i - 1);
                        if repeats(bytes, width, start - width, other) {
                            assert(bytes[start - width] == other);
                            if long {
                                assert(bytes[start - width] == byte);
                            }
                        }
                    }
                }
            }
        }
    }
}

/// A run that starts with the first line starts there, and is three lines long at least.
proof fn lemma_run_begins(bytes: Seq<u8>, width: int, at: int, i: int)
    requires
        0 <= at,
        0 < width,
        bytes.len() <= usize::MAX,
        0 <= i < rows_from(bytes, width, true, at).len(),
        rows_from(bytes, width, true, at)[i] is Repeated,
        rows_from(bytes, width, true, at)[i].first() < at + width,
    ensures
        ({
            let row = rows_from(bytes, width, true, at)[i];
            &&& row.first() == at
            &&& row->byte == bytes[at]
            &&& run_end(bytes, width, at, bytes[at]) - at >= SHORTEST_RUN * width
            &&& repeats(bytes, width, at, bytes[at])
        }),
{
    let rows = rows_from(bytes, width, true, at);
    rows_tile_the_file(bytes, width, true, at);
    lemma_run_end(bytes, width, at, bytes[at]);
    if i > 0 {
        let length = bytes.len() as int;
        assert(rows[0].last(width, length) < rows[i].first());
        assert(rows[i].first() <= rows[i].last(width, length) < length);
        assert(rows[0].first() == at);
    }
}

/// Without compression the lines hold as many bytes as the settings say, one after the other, and
/// the last one the rest.
pub proof fn plain_lines_are_full(bytes: Seq<u8>, settings: ViewerSettings, i: int)
    requires
        settings.wf(),
        !settings.compress_repeated_rows,
        bytes.len() <= usize::MAX,
        0 <= i < rows_of(bytes, settings).len(),
    ensures
        rows_of(bytes, settings)[i] == (DisplayRow::Bytes {
            offset: (i * settings.bytes_per_row) as usize,
        }),
        i * settings.bytes_per_row < bytes.len(),
        i + 1 == rows_of(bytes, settings).len() ==> (i + 1) * settings.bytes_per_row >= bytes.len(),
{
    lemma_plain_lines(bytes, settings.bytes_per_row as int, 0, i);
}

proof fn lemma_plain_lines(bytes: Seq<u8>, width: int, at: int, i: int)
    requires
        0 < width,
        0 <= at,
        bytes.len() <= usize::MAX,
        0 <= i < rows_from(bytes, width, false, at).len(),
    ensures
        rows_from(bytes, width, false, at)[i] == (DisplayRow::Bytes {
            offset: (at + i * width) as usize,
        }),
        at + i * width < bytes.len(),
        i + 1 == rows_from(bytes, width, false, at).len() ==> at + (i + 1) * width >= bytes.len(),
    decreases i,
{
    let rows = rows_from(bytes, width, false, at);
    let rest = rows_from(bytes, width, false, at + width);
    if at < bytes.len() {
        assert(rows =~= seq![DisplayRow::Bytes { offset: at as usize }] + rest);
        if i > 0 {
            lemma_plain_lines(bytes, width, at + width, i - 1);
            assert(at + width + (i - 1) * width == at + i * width) by (nonlinear_arith);
            assert(at + width + i * width == at + (i + 1) * width) by (nonlinear_arith);
        } else {
            assert(i * width == 0 && (i + 1) * width == width) by (nonlinear_arith)
                requires
                    i == 0,
            ;
        }
    }
}

/// Every row of the settings editor switches one setting and leaves all others as they are.
pub proof fn each_row_switches_one_setting(settings: ViewerSettings, active: int)
    requires
        settings.wf(),
        0 <= active <= 6,
    ensures
        ({
            let after = settings.toggled(active);
            &&& (after.show_ascii != settings.show_ascii) == (active == 0)
            &&& (after.bytes_per_row != settings.bytes_per_row) == (active == 1)
            &&& (after.uppercase_hex != settings.uppercase_hex) == (active == 2)
            &&& (after.show_offsets != settings.show_offsets) == (active == 3)
            &&& (after.show_sidebar != settings.show_sidebar) == (active == 4)
            &&& (after.compress_repeated_rows != settings.compress_repeated_rows) == (active == 5)
            &&& (after.show_overlays != settings.show_overlays) == (active == 6)
            &&& after.bytes_per_row == 16 || after.bytes_per_row == 32
        }),
{
}

} // verus!
