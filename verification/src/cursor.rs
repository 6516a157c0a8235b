//! The position of a day's fetch within the day's result set.

use crate::record::SwapsSwaps;
use vstd::prelude::*;

verus! {

/// How a position is told to the query service. A run uses one strategy
/// throughout.
#[derive(Clone, Copy, Debug, PartialEq, Eq, Structural)]
pub enum Strategy {
    /// By the count of events that were already seen.
    Offset,
    /// By the identifier of the event that was seen last.
    LastId,
}

/// A position in a day's result set.
#[derive(Debug, PartialEq, Eq)]
pub enum Cursor {
    /// Skip this many events.
    Offset(u64),
    /// Return the events whose identifier is greater than this one.
    LastId(String),
}

/// What a [`Cursor`] stands for.
pub enum CursorView {
    Offset(nat),
    LastId(Seq<char>),
}

impl View for Cursor {
    type V = CursorView;

    open spec fn view(&self) -> CursorView {
        match self {
            Cursor::Offset(seen) => CursorView::Offset(*seen as nat),
            Cursor::LastId(id) => CursorView::LastId(id@),
        }
    }
}

/// The identifier below every event's identifier, with which a fetch by
/// identifier starts.
pub open spec fn zero_identifier() -> Seq<char> {
    "0x0"@
}

/// The position behind the given events: their count, or the identifier of
/// the last of them.
pub open spec fn cursor_after(strategy: Strategy, seen: Seq<SwapsSwaps>) -> CursorView {
    match strategy {
        Strategy::Offset => CursorView::Offset(seen.len()),
        Strategy::LastId => if seen.len() == 0 {
            CursorView::LastId(zero_identifier())
        } else {
            CursorView::LastId(seen.last().id@)
        },
    }
}

/// The position that follows `cursor` once `page` was read from there.
pub open spec fn advanced(cursor: CursorView, page: Seq<SwapsSwaps>) -> CursorView {
    match cursor {
        CursorView::Offset(seen) => CursorView::Offset(seen + page.len()),
        CursorView::LastId(id) => if page.len() == 0 {
            cursor
        } else {
            CursorView::LastId(page.last().id@)
        },
    }
}

/// Reading page after page moves the cursor behind all that was read: with
/// offsets to the count of all events so far, with identifiers to the last
/// event of the last page.
pub proof fn lemma_cursor_follows_pages(
    strategy: Strategy,
    seen: Seq<SwapsSwaps>,
    page: Seq<SwapsSwaps>,
)
    ensures
        cursor_after(strategy, seen + page) == advanced(cursor_after(strategy, seen), page),
        strategy == Strategy::Offset ==> cursor_after(strategy, seen + page) == CursorView::Offset(
            seen.len() + page.len(),
        ),
        strategy == Strategy::LastId && page.len() > 0 ==> cursor_after(strategy, seen + page)
            == CursorView::LastId(page.last().id@),
{
    if page.len() == 0 {
        assert(seen + page =~= seen);
    } else {
        assert((seen + page).last() == page.last());
    }
}

impl Clone for Cursor {
    fn clone(&self) -> (copy: Cursor)
        ensures
            copy@ == self@,
    {
        match self {
            Cursor::Offset(seen) => Cursor::Offset(*seen),
            Cursor::LastId(id) => Cursor::LastId(id.clone()),
        }
    }
}

impl Cursor {
    pub open spec fn strategy_of(cursor: CursorView) -> Strategy {
        match cursor {
            CursorView::Offset(_) => Strategy::Offset,
            CursorView::LastId(_) => Strategy::LastId,
        }
    }

    /// The position before the first event of a day.
    pub fn start(strategy: Strategy) -> (cursor: Cursor)
        ensures
            cursor@ == cursor_after(strategy, Seq::empty()),
    {
        match strategy {
            Strategy::Offset => Cursor::Offset(0),
            Strategy::LastId => Cursor::LastId("0x0".to_string()),
        }
    }

    /// The strategy that the cursor belongs to.
    pub fn strategy(&self) -> (strategy: Strategy)
        ensures
            strategy == Self::strategy_of(self@),
    {
        match self {
            Cursor::Offset(_) => Strategy::Offset,
            Cursor::LastId(_) => Strategy::LastId,
        }
    }

    /// The position behind `page`, which was read from this one. An empty
    /// page leaves an identifier where it is.
    pub fn advance(self, page: &[SwapsSwaps]) -> (next: Cursor)
        requires
            self matches Cursor::Offset(seen) ==> seen + page@.len() <= u64::MAX,
        ensures
            next@ == advanced(self@, page@),
    {
        match self {
            Cursor::Offset(seen) => Cursor::Offset(seen + page.len() as u64),
            Cursor::LastId(id) => {
                if page.len() == 0 {
                    Cursor::LastId(id)
                } else {
                    Cursor::LastId(page[page.len() - 1].id.clone())
                }
            },
        }
    }
}

} // verus!
