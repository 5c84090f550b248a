//! A column of buttons shown as one list: dividers between the buttons, and
//! round corners only where the list ends.

use vstd::prelude::*;

verus! {

/// Creates an empty column of buttons.
#[inline]
pub fn button_column<Element, Message>() -> (column: ButtonColumn<Element, Message>)
    ensures
        column@ == Seq::<(Element, Message)>::empty(),
{
    ButtonColumn::default()
}

/// Which corners of a button are round. A round corner takes the radius that
/// the theme gives to that corner, the others have none.
#[derive(Clone, Copy, Debug, PartialEq, Eq)]
pub struct Corners {
    pub top_left: bool,
    pub top_right: bool,
    pub bottom_right: bool,
    pub bottom_left: bool,
}

/// One row of the list.
pub enum Row<Element, Message> {
    /// A button: what it shows, the message it sends when pressed, and which
    /// of its corners are round.
    Button { item: Element, on_press: Message, corners: Corners },
    /// A line between two buttons.
    Divider,
}

/// A column of buttons under construction. `Element` is the widget type of
/// the toolkit that will show it.
///
/// Its view is the sequence of its buttons, each what it shows and the
/// message it sends.
#[must_use]
pub struct ButtonColumn<Element, Message> {
    children: Vec<(Element, Message)>,
}

impl<Element, Message> View for ButtonColumn<Element, Message> {
    type V = Seq<(Element, Message)>;

    closed spec fn view(&self) -> Seq<(Element, Message)> {
        self.children@
    }
}

impl<Element, Message> Default for ButtonColumn<Element, Message> {
    /// The empty column.
    fn default() -> (column: Self)
        ensures
            column@ == Seq::<(Element, Message)>::empty(),
    {
        Self { children: Vec::with_capacity(4) }
    }
}

/// The corners of a button by its place: the first button of a list is round
/// at the top, the last at the bottom.
pub open spec fn corners_of(first: bool, last: bool) -> Corners {
    Corners { top_left: first, top_right: first, bottom_right: last, bottom_left: last }
}

/// The rows of a list of buttons: the buttons in order, each with the corners
/// of its place, and a divider between any two.
pub open spec fn rows_of<Element, Message>(children: Seq<(Element, Message)>) -> Seq<
    Row<Element, Message>,
>
    recommends
        children.len() > 0,
{
    Seq::new(
        (2 * children.len() - 1) as nat,
        |i: int|
            if i % 2 == 0 {
                Row::Button {
                    item: children[i / 2].0,
                    on_press: children[i / 2].1,
                    corners: corners_of(i / 2 == 0, i / 2 == children.len() - 1),
                }
            } else {
                Row::Divider
            },
    )
}

/// Says which corners of a button are round, from whether it is the first
/// and whether it is the last of its list.
pub fn rounded_corners(first: bool, last: bool) -> (corners: Corners)
    ensures
        corners == corners_of(first, last),
{
    match (first, last) {
        (true, true) => Corners {
            top_left: true,
            top_right: true,
            bottom_right: true,
            bottom_left: true,
        },
        (true, false) => Corners {
            top_left: true,
            top_right: true,
            bottom_right: false,
            bottom_left: false,
        },
        (false, true) => Corners {
            top_left: false,
            top_right: false,
            bottom_right: true,
            bottom_left: true,
        },
        (false, false) => Corners {
            top_left: false,
            top_right: false,
            bottom_right: false,
            bottom_left: false,
        },
    }
}

impl<Element, Message> ButtonColumn<Element, Message> {
    /// Creates an empty column of buttons.
    #[inline]
    pub fn new() -> (column: Self)
        ensures
            column@ == Seq::<(Element, Message)>::empty(),
    {
        Self::default()
    }

    /// Adds a button behind those that are there: it shows what `item`
    /// converts into and sends `on_press` when pressed.
    pub fn add<T: Into<Element>>(self, item: T, on_press: Message) -> (column: Self)
        ensures
            column@.len() == self@.len() + 1,
            column@.drop_last() == self@,
            column@.last().1 == on_press,
            call_ensures(T::into, (item,), column@.last().0),
    {
        let mut column = self;
        column.children.push((item.into(), on_press));
        assert(column@.drop_last() =~= self@);
        column
    }

    /// Returns the number of buttons.
    pub fn len(&self) -> (len: usize)
        ensures
            len == self@.len(),
    {
        self.children.len()
    }

    /// Lays the column out as the rows of a list.
    ///
    /// A list has at least one row: the column must hold a button.
    #[must_use]
    pub fn into_rows(self) -> (rows: Vec<Row<Element, Message>>)
        requires
            self@.len() > 0,
        ensures
            rows@ == rows_of(self@),
    {
        let count = self.children.len();
        let ghost children = self@;
        let mut rows: Vec<Row<Element, Message>> = Vec::new();
        let mut i: usize = 0;
        for child in iter: self.children
            invariant
                count == children.len(),
                iter.seq() == children,
                i == iter.index(),
                rows@.len() == (if i == count { 2 * i - 1 } else { 2 * i }),
                forall|j: int| 0 <= j < rows@.len() ==> #[trigger] rows@[j] == rows_of(children)[j],
        {
            let is_first = i == 0;
            let is_last = i == count - 1;
            let (item, on_press) = child;
            rows.push(Row::Button { item, on_press, corners: rounded_corners(is_first, is_last) });
            if !is_last {
                rows.push(Row::Divider);
            }
            i += 1;
        }
        assert(rows@ =~= rows_of(children));
        rows
    }
}

} // verus!
