use vstd::prelude::*;

verus! {

pub type Line = usize;

pub type Col = usize;

/// A point in the source text: lines count from 1, columns from 0.
#[derive(Clone, Copy, Debug, PartialEq, Eq, Structural)]
pub struct Position {
    pub line: Line,
    pub col: Col,
}

/// A stretch of source text, from `start` up to (not including) `end`.
#[derive(Clone, Copy, Debug, PartialEq, Eq, Structural)]
pub struct Region {
    pub start: Position,
    pub end: Position,
}

impl Region {
    pub fn new(start_line: Line, start_col: Col, end_line: Line, end_col: Col) -> (r: Region)
        ensures
            r == (Region {
                start: Position { line: start_line, col: start_col },
                end: Position { line: end_line, col: end_col },
            }),
    {
        Region {
            start: Position { line: start_line, col: start_col },
            end: Position { line: end_line, col: end_col },
        }
    }
}

impl Region {
    /// The empty region at one position.
    pub fn point(p: Position) -> (r: Region)
        ensures
            r == (Region { start: p, end: p }),
    {
        Region { start: p, end: p }
    }
}

/// One block of a diagnostic: a sentence, or a pointer into the source.
#[derive(Debug, Clone, PartialEq, Eq)]
pub enum Block {
    Text(String),
    Snippet(Region),
}

/// A diagnostic as a host renders it: a title and blocks, in order.
#[derive(Debug, Clone, PartialEq, Eq)]
pub struct Report {
    pub title: String,
    pub blocks: Vec<Block>,
}

/// The report with `title`, the sentence `text` and a pointer at `at`.
pub open spec fn report_of(r: Report, title: Seq<char>, text: Seq<char>, at: Position) -> bool {
    &&& r.title@ == title
    &&& r.blocks@.len() == 2
    &&& r.blocks@[0] matches Block::Text(t) && t@ == text
    &&& r.blocks@[1] == Block::Snippet(Region { start: at, end: at })
}

pub fn make_report(title: &str, text: &str, at: Position) -> (r: Report)
    ensures
        report_of(r, title@, text@, at),
{
    let mut blocks: Vec<Block> = Vec::new();
    blocks.push(Block::Text(text.to_owned()));
    blocks.push(Block::Snippet(Region::point(at)));
    Report { title: title.to_owned(), blocks }
}

} // verus!
