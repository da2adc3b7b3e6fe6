//! Which text field receives keystrokes, and how the focus cycles.

use vstd::prelude::*;

verus! {

/// The position that follows `index` in a cycle of `count` positions.
pub open spec fn cycle_next(index: int, count: int) -> int {
    (index + 1) % count
}

/// The position that precedes `index` in a cycle of `count` positions.
pub open spec fn cycle_prev(index: int, count: int) -> int {
    (index + count - 1) % count
}

/// Advancing and then retreating, or retreating and then advancing, returns
/// to the position one started from, whatever the length of the cycle.
pub proof fn lemma_cycle_round_trip(index: int, count: int)
    requires
        0 <= index < count,
    ensures
        0 <= cycle_next(index, count) < count,
        0 <= cycle_prev(index, count) < count,
        cycle_prev(cycle_next(index, count), count) == index,
        cycle_next(cycle_prev(index, count), count) == index,
{
    lemma_cycle_values(index, count);
    lemma_cycle_values(cycle_next(index, count), count);
    lemma_cycle_values(cycle_prev(index, count), count);
}

/// Both steps written out without the remainder.
pub proof fn lemma_cycle_values(index: int, count: int)
    requires
        0 <= index < count,
    ensures
        cycle_next(index, count) == if index + 1 == count { 0 } else { index + 1 },
        cycle_prev(index, count) == if index == 0 { count - 1 } else { index - 1 },
{
    assert((index + 1) % count == if index + 1 == count { 0 } else { index + 1 })
        by (nonlinear_arith)
        requires
            0 <= index < count,
    ;
    assert((index + count - 1) % count == if index == 0 { count - 1 } else { index - 1 })
        by (nonlinear_arith)
        requires
            0 <= index < count,
    ;
}

/// Advances a position by one, wrapping from the last position to the first.
pub fn next_index(index: usize, count: usize) -> (r: usize)
    requires
        index < count,
    ensures
        r == cycle_next(index as int, count as int),
        r < count,
{
    proof {
        lemma_cycle_values(index as int, count as int);
    }
    (index + 1) % count
}

/// Retreats a position by one, wrapping from the first position to the last.
pub fn prev_index(index: usize, count: usize) -> (r: usize)
    requires
        index < count,
    ensures
        r == cycle_prev(index as int, count as int),
        r < count,
{
    proof {
        lemma_cycle_values(index as int, count as int);
    }
    if index == 0 {
        count - 1
    } else {
        index - 1
    }
}

/// The editable text fields, in the order in which the focus visits them.
#[derive(Clone, Copy, Debug, PartialEq, Eq, Structural)]
pub enum EditFocus {
    Pattern,
    Replacement,
}

/// How many editable fields there are.
pub const FIELD_COUNT: usize = 2;

impl EditFocus {
    /// The place of a field in the focus order.
    pub open spec fn position(self) -> int {
        match self {
            EditFocus::Pattern => 0,
            EditFocus::Replacement => 1,
        }
    }

    /// The field at a place of the focus order.
    pub open spec fn at(position: int) -> EditFocus {
        if position == 0 {
            EditFocus::Pattern
        } else {
            EditFocus::Replacement
        }
    }

    /// The field that gets the focus after this one.
    pub open spec fn spec_next(self) -> EditFocus {
        EditFocus::at(cycle_next(self.position(), FIELD_COUNT as int))
    }

    /// The field that had the focus before this one.
    pub open spec fn spec_prev(self) -> EditFocus {
        EditFocus::at(cycle_prev(self.position(), FIELD_COUNT as int))
    }

    /// The place of this field in the focus order.
    pub fn index(&self) -> (r: usize)
        ensures
            r == self.position(),
            r < FIELD_COUNT,
    {
        match self {
            EditFocus::Pattern => 0,
            EditFocus::Replacement => 1,
        }
    }

    /// The field at place `index`, if there is one.
    pub fn from_index(index: usize) -> (r: Option<EditFocus>)
        ensures
            index < FIELD_COUNT ==> r == Some(EditFocus::at(index as int)),
            index >= FIELD_COUNT ==> r is None,
            r matches Some(field) ==> field.position() == index,
    {
        if index == 0 {
            Some(EditFocus::Pattern)
        } else if index == 1 {
            Some(EditFocus::Replacement)
        } else {
            None
        }
    }

    /// Moves the focus to the following field, from the last to the first.
    pub fn next(&self) -> (r: EditFocus)
        ensures
            r == self.spec_next(),
    {
        match EditFocus::from_index(next_index(self.index(), FIELD_COUNT)) {
            Some(field) => field,
            None => *self,
        }
    }

    /// Moves the focus to the preceding field, from the first to the last.
    pub fn prev(&self) -> (r: EditFocus)
        ensures
            r == self.spec_prev(),
    {
        match EditFocus::from_index(prev_index(self.index(), FIELD_COUNT)) {
            Some(field) => field,
            None => *self,
        }
    }
}

/// Every field has a place in the focus order, and is the field at that
/// place.
pub proof fn lemma_position_at(field: EditFocus)
    ensures
        0 <= field.position() < FIELD_COUNT,
        EditFocus::at(field.position()) == field,
{
}

/// Moving the focus forward and then back, or back and then forward, leaves
/// it on the field where it was.
pub proof fn lemma_focus_round_trip(field: EditFocus)
    ensures
        field.spec_next().spec_prev() == field,
        field.spec_prev().spec_next() == field,
{
    lemma_cycle_round_trip(field.position(), FIELD_COUNT as int);
}

} // verus!
