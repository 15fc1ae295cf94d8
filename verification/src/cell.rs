//! A single square of the board and what stands on it.

use vstd::prelude::*;
use crate::error::BoardError;

verus! {

/// What a square currently holds.
#[derive(Debug, Clone, Copy, PartialEq, Eq, Structural)]
pub enum CellContent {
    /// No queen on the square and no queen attacking it.
    Empty,
    /// A queen stands on the square.
    Queen,
    /// No queen on the square; the payload counts the queens attacking it
    /// and is at least one.
    Attack(u8),
}

impl CellContent {
    /// The number of attacks that the content records.
    pub open spec fn attack_count(self) -> nat {
        match self {
            CellContent::Attack(a) => a as nat,
            _ => 0,
        }
    }

    /// The content after one more attack, where one can be recorded.
    pub open spec fn attacked(self) -> Option<CellContent> {
        match self {
            CellContent::Empty => Some(CellContent::Attack(1)),
            CellContent::Attack(a) => if a < u8::MAX {
                Some(CellContent::Attack((a + 1) as u8))
            } else {
                None
            },
            CellContent::Queen => None,
        }
    }

    /// The content after one attack less, where one was recorded.
    pub open spec fn relieved(self) -> Option<CellContent> {
        match self {
            CellContent::Attack(a) => if a == 1 {
                Some(CellContent::Empty)
            } else if a > 1 {
                Some(CellContent::Attack((a - 1) as u8))
            } else {
                None
            },
            _ => None,
        }
    }

    /// The content after a queen was put down or taken off, where that is
    /// allowed.
    pub open spec fn toggled(self) -> Option<CellContent> {
        match self {
            CellContent::Empty => Some(CellContent::Queen),
            CellContent::Queen => Some(CellContent::Empty),
            CellContent::Attack(_) => None,
        }
    }

    /// An attack counter of zero is written as `Empty`, never as `Attack(0)`.
    pub open spec fn wf(self) -> bool {
        self != CellContent::Attack(0)
    }
}

/// One square: its 1-based column `x`, its 1-based row `y`, its row-major
/// index `i`, and its content.
#[derive(Debug, Clone, Copy)]
pub struct Cell {
    x: usize,
    y: usize,
    i: usize,
    content: CellContent,
}

impl Cell {
    /// The column, row and index the cell was created with.
    pub closed spec fn xyi(&self) -> (usize, usize, usize) {
        (self.x, self.y, self.i)
    }

    /// The content of the cell.
    pub closed spec fn content(&self) -> CellContent {
        self.content
    }

    /// The cell never holds `Attack(0)`.
    pub open spec fn wf(&self) -> bool {
        self.content().wf()
    }

    /// An empty cell at the given coordinates.
    pub fn new(x: usize, y: usize, i: usize) -> (c: Cell)
        ensures
            c.xyi() == (x, y, i),
            c.content() == CellContent::Empty,
            c.wf(),
    {
        Cell { x, y, i, content: CellContent::Empty }
    }

    /// Column, row and index.
    pub fn get_xyi(&self) -> (r: (&usize, &usize, &usize))
        ensures
            (*r.0, *r.1, *r.2) == self.xyi(),
    {
        (&self.x, &self.y, &self.i)
    }

    pub fn get_content(&self) -> (r: &CellContent)
        ensures
            *r == self.content(),
    {
        &self.content
    }

    pub fn is_queen(&self) -> (r: bool)
        ensures
            r == (self.content() == CellContent::Queen),
    {
        match &self.content {
            CellContent::Queen => true,
            _ => false,
        }
    }

    pub fn is_empty(&self) -> (r: bool)
        ensures
            r == (self.content() == CellContent::Empty),
    {
        match &self.content {
            CellContent::Empty => true,
            _ => false,
        }
    }

    pub fn is_attacked(&self) -> (r: bool)
        ensures
            r == (self.content() is Attack),
    {
        match &self.content {
            CellContent::Attack(_) => true,
            _ => false,
        }
    }

    /// Puts a queen on an empty cell, or takes the queen off again, and
    /// returns the new content. An attacked cell stays as it is and the
    /// call is refused.
    pub fn toggle(&mut self) -> (r: Result<&CellContent, BoardError>)
        ensures
            final(self).xyi() == old(self).xyi(),
            match old(self).content().toggled() {
                Some(c) => final(self).content() == c && r == Ok::<&CellContent, BoardError>(&c),
                None => *final(self) == *old(self) && r == Err::<&CellContent, BoardError>(
                    BoardError::IllegalToggle,
                ),
            },
    {
        match &self.content {
            CellContent::Empty => {
                self.content = CellContent::Queen;
                Ok(&self.content)
            },
            CellContent::Queen => {
                self.content = CellContent::Empty;
                Ok(&self.content)
            },
            _ => Err(BoardError::IllegalToggle),
        }
    }

    /// Records one more attack. A queen, and a counter that is already at
    /// 255, stay as they are and the call is refused.
    pub fn attack(&mut self) -> (r: Result<(), BoardError>)
        ensures
            final(self).xyi() == old(self).xyi(),
            match old(self).content().attacked() {
                Some(c) => final(self).content() == c && r == Ok::<(), BoardError>(()),
                None => *final(self) == *old(self) && r == Err::<(), BoardError>(
                    BoardError::IllegalToggle,
                ),
            },
            final(self).wf(),
    {
        match self.content {
            CellContent::Empty => {
                self.content = CellContent::Attack(1);
                Ok(())
            },
            CellContent::Attack(a) => {
                if a < u8::MAX {
                    self.content = CellContent::Attack(a + 1);
                    Ok(())
                } else {
                    Err(BoardError::IllegalToggle)
                }
            },
            _ => Err(BoardError::IllegalToggle),
        }
    }

    /// Takes one attack back; the last one leaves the cell empty. A cell
    /// that records no attack stays as it is and the call is refused.
    pub fn relieve(&mut self) -> (r: Result<(), BoardError>)
        ensures
            final(self).xyi() == old(self).xyi(),
            match old(self).content().relieved() {
                Some(c) => final(self).content() == c && r == Ok::<(), BoardError>(()),
                None => *final(self) == *old(self) && r == Err::<(), BoardError>(
                    BoardError::IllegalToggle,
                ),
            },
            old(self).wf() ==> final(self).wf(),
    {
        match self.content {
            CellContent::Attack(a) => {
                if a == 1 {
                    self.content = CellContent::Empty;
                    Ok(())
                } else if a > 1 {
                    self.content = CellContent::Attack(a - 1);
                    Ok(())
                } else {
                    Err(BoardError::IllegalToggle)
                }
            },
            _ => Err(BoardError::IllegalToggle),
        }
    }

    /// `attack` where the flag is set, `relieve` where it is not.
    pub fn attack_or_relieve(&mut self, attack: &bool) -> (r: Result<(), BoardError>)
        ensures
            final(self).xyi() == old(self).xyi(),
            match (if *attack { old(self).content().attacked() } else { old(self).content().relieved() }) {
                Some(c) => final(self).content() == c && r == Ok::<(), BoardError>(()),
                None => *final(self) == *old(self) && r == Err::<(), BoardError>(
                    BoardError::IllegalToggle,
                ),
            },
            old(self).wf() ==> final(self).wf(),
    {
        if *attack {
            self.attack()
        } else {
            self.relieve()
        }
    }
}

} // verus!
