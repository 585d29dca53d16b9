//! The score: a grid of text cells, read as tracks. The header row names
//! one sample resource per even column; the rows below it name one
//! optional note per timeline slot.

use vstd::prelude::*;
use crate::pitch::{parse_note_text, parsed_note, Note};
use crate::timeline::notes_wf;

verus! {

/// One instrument line: the base sample's resource name and one optional
/// note per slot, in row order; `None` is silence.
pub struct Track {
    pub sample_path: String,
    pub notes: Vec<Option<Note>>,
}

/// The sample columns among the first `i` even columns of the header row:
/// every even column whose cell holds text names a sample resource, paired
/// with its column index.
pub open spec fn sample_cols(header: Seq<Option<String>>, i: int) -> Seq<(Seq<char>, int)>
    decreases i,
{
    if i <= 0 {
        Seq::empty()
    } else {
        let prev = sample_cols(header, i - 1);
        let c = 2 * (i - 1);
        if 0 <= c < header.len() && header[c] is Some {
            prev.push((header[c]->0@, c))
        } else {
            prev
        }
    }
}

/// All sample columns of the header row.
pub open spec fn sample_cols_of(header: Seq<Option<String>>) -> Seq<(Seq<char>, int)> {
    sample_cols(header, header.len() as int / 2 + 1)
}

/// Reads the sample columns out of the header row, walking every even
/// column as far as half the row's width.
pub fn parse_sample_columns(header: &Vec<Option<String>>) -> (r: Vec<(String, usize)>)
    ensures
        r@.len() == sample_cols_of(header@).len(),
        forall|k: int|
            0 <= k < r@.len() ==> ((#[trigger] r@[k]).0@, r@[k].1 as int) == sample_cols_of(
                header@,
            )[k],
{
    let mut r: Vec<(String, usize)> = Vec::new();
    let mut i: usize = 0;
    while i <= header.len() / 2
        invariant
            i <= header@.len() / 2 + 1,
            r@.len() == sample_cols(header@, i as int).len(),
            forall|k: int|
                0 <= k < r@.len() ==> ((#[trigger] r@[k]).0@, r@[k].1 as int) == sample_cols(
                    header@,
                    i as int,
                )[k],
        decreases header@.len() / 2 + 1 - i,
    {
        let c = 2 * i;
        if c < header.len() {
            match &header[c] {
                Some(name) => {
                    r.push((name.clone(), c));
                },
                None => {},
            }
        }
        i += 1;
    }
    r
}

/// The note that the cell at row `r`, column `c` names; a missing cell or
/// unrecognized text is silence.
pub open spec fn cell_note(grid: Seq<Vec<Option<String>>>, r: int, c: int) -> Option<Note> {
    if 0 <= r < grid.len() && 0 <= c < grid[r]@.len() {
        match grid[r]@[c] {
            Some(text) => parsed_note(text@),
            None => None,
        }
    } else {
        None
    }
}

/// Reads one slot per row below the header out of column `col`: rows are
/// walked from the first below the header to the grid's full height, so a
/// track always ends on one silent slot.
pub fn track_notes(grid: &Vec<Vec<Option<String>>>, col: usize) -> (r: Vec<Option<Note>>)
    requires
        grid@.len() < usize::MAX,
    ensures
        r@.len() == grid@.len(),
        forall|k: int|
            0 <= k < r@.len() ==> #[trigger] r@[k] == cell_note(grid@, k + 1, col as int),
        notes_wf(r@),
{
    let mut r: Vec<Option<Note>> = Vec::new();
    let mut row: usize = 1;
    while row <= grid.len()
        invariant
            1 <= row <= grid@.len() + 1,
            grid@.len() < usize::MAX,
            r@.len() == row - 1,
            forall|k: int|
                0 <= k < r@.len() ==> #[trigger] r@[k] == cell_note(grid@, k + 1, col as int),
            forall|k: int|
                0 <= k < r@.len() ==> ((#[trigger] r@[k]) matches Some(n) ==> n.wf()),
        decreases grid@.len() + 1 - row,
    {
        let note: Option<Note> = if row < grid.len() && col < grid[row].len() {
            match &grid[row][col] {
                Some(text) => parse_note_text(text.as_str()),
                None => None,
            }
        } else {
            None
        };
        r.push(note);
        row += 1;
    }
    r
}

/// The header row of a grid: its first row, or nothing at all.
pub open spec fn score_header(grid: Seq<Vec<Option<String>>>) -> Seq<Option<String>> {
    if grid.len() > 0 {
        grid[0]@
    } else {
        Seq::empty()
    }
}

/// Reads the whole score: one track per sample column of the header row,
/// each with one optional note per row below the header.
pub fn parse_score(grid: &Vec<Vec<Option<String>>>) -> (r: Vec<Track>)
    requires
        grid@.len() < usize::MAX,
    ensures
        r@.len() == sample_cols_of(score_header(grid@)).len(),
        forall|k: int|
            0 <= k < r@.len() ==> (#[trigger] r@[k]).sample_path@ == sample_cols_of(
                score_header(grid@),
            )[k].0 && r@[k].notes@.len() == grid@.len() && (forall|j: int|
                0 <= j < grid@.len() ==> #[trigger] r@[k].notes@[j] == cell_note(
                    grid@,
                    j + 1,
                    sample_cols_of(score_header(grid@))[k].1,
                )),
        forall|k: int| 0 <= k < r@.len() ==> notes_wf((#[trigger] r@[k]).notes@),
{
    let empty: Vec<Option<String>> = Vec::new();
    let cols: Vec<(String, usize)> = if grid.len() > 0 {
        parse_sample_columns(&grid[0])
    } else {
        parse_sample_columns(&empty)
    };
    let mut r: Vec<Track> = Vec::new();
    let mut k: usize = 0;
    while k < cols.len()
        invariant
            k <= cols@.len(),
            grid@.len() < usize::MAX,
            r@.len() == k,
            cols@.len() == sample_cols_of(score_header(grid@)).len(),
            forall|k2: int|
                0 <= k2 < cols@.len() ==> ((#[trigger] cols@[k2]).0@, cols@[k2].1 as int)
                    == sample_cols_of(score_header(grid@))[k2],
            forall|k2: int|
                0 <= k2 < r@.len() ==> (#[trigger] r@[k2]).sample_path@ == sample_cols_of(
                    score_header(grid@),
                )[k2].0 && r@[k2].notes@.len() == grid@.len() && (forall|j: int|
                    0 <= j < grid@.len() ==> #[trigger] r@[k2].notes@[j] == cell_note(
                        grid@,
                        j + 1,
                        sample_cols_of(score_header(grid@))[k2].1,
                    )),
            forall|k2: int| 0 <= k2 < r@.len() ==> notes_wf((#[trigger] r@[k2]).notes@),
        decreases cols@.len() - k,
    {
        let (name, col) = &cols[k];
        let notes = track_notes(grid, *col);
        r.push(Track { sample_path: name.clone(), notes });
        k += 1;
    }
    r
}

} // verus!
