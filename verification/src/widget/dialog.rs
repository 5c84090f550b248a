//! A dialog: a title, a body and controls beside an optional icon, above a
//! row of up to three actions.
//!
//! The dialog is built part by part and then arranged: the arrangement says
//! which parts are shown, in which order, and where space lies between them.
//! Turning the arrangement into widgets is left to the toolkit.

use crate::theme::Spacing;
use std::borrow::Cow;
use vstd::prelude::*;

verus! {

/// The width of a dialog.
pub const DIALOG_WIDTH: u16 = 570;

/// Creates an empty dialog.
pub fn dialog<'a, Element>() -> (dialog: Dialog<'a, Element>)
    ensures
        dialog@ == DialogView::<'a, Element>::empty(),
{
    Dialog::new()
}

/// One entry of the column that holds the text and the controls of a dialog.
pub enum Content<'a, Element> {
    /// The title.
    Title(Cow<'a, str>),
    /// The body.
    Body(Cow<'a, str>),
    /// Empty space of the given height.
    Space(u16),
    /// A control.
    Control(Element),
}

/// One entry of the row that holds the actions of a dialog.
pub enum Action<Element> {
    /// An action.
    Button(Element),
    /// Space that takes up what the actions leave free.
    Filler,
}

/// A dialog laid out: what is shown, in which order, and how far apart.
///
/// The icon, if any, stands to the left of the content, `content_spacing`
/// away from it. Below them, `spacing` away, stands the row of actions, which
/// are `action_spacing` apart. Around all of it runs `padding`.
pub struct Arrangement<'a, Element> {
    pub icon: Option<Element>,
    pub content: Vec<Content<'a, Element>>,
    pub actions: Vec<Action<Element>>,
    pub content_spacing: u16,
    pub action_spacing: u16,
    pub spacing: u16,
    pub padding: u16,
    pub width: u16,
}

/// The controls as entries of the content column: space of height `gap` in
/// front of each, but for the first where nothing stands above it.
pub open spec fn controls_of<'a, Element>(
    controls: Seq<Element>,
    below: bool,
    gap: u16,
) -> Seq<Content<'a, Element>> {
    let spaced = Seq::new(
        2 * controls.len(),
        |i: int|
            if i % 2 == 0 {
                Content::Space(gap)
            } else {
                Content::Control(controls[i / 2])
            },
    );
    if below || controls.len() == 0 {
        spaced
    } else {
        spaced.drop_first()
    }
}

/// The content column of a dialog: the title, the body and the controls, in
/// this order and as far as they are there, with space between any two of
/// them. The space above the body is `space_xxs` high, that above a control
/// `space_s`.
pub open spec fn content_of<'a, Element>(
    dialog: DialogView<'a, Element>,
    spacing: Spacing,
) -> Seq<Content<'a, Element>> {
    let title = match dialog.title {
        Some(title) => seq![Content::Title(title)],
        None => seq![],
    };
    let body = match dialog.body {
        Some(body) => if dialog.title is Some {
            seq![Content::Space(spacing.space_xxs), Content::Body(body)]
        } else {
            seq![Content::Body(body)]
        },
        None => seq![],
    };
    title + body + controls_of(
        dialog.controls,
        dialog.title is Some || dialog.body is Some,
        spacing.space_s,
    )
}

/// The row of actions of a dialog: the tertiary action on one side, the
/// secondary and the primary action on the other, as far as they are there,
/// and the filler between the sides.
pub open spec fn actions_of<'a, Element>(dialog: DialogView<'a, Element>) -> Seq<Action<Element>> {
    let tertiary = match dialog.tertiary_action {
        Some(button) => seq![Action::Button(button)],
        None => seq![],
    };
    let secondary = match dialog.secondary_action {
        Some(button) => seq![Action::Button(button)],
        None => seq![],
    };
    let primary = match dialog.primary_action {
        Some(button) => seq![Action::Button(button)],
        None => seq![],
    };
    tertiary + seq![Action::Filler] + secondary + primary
}

/// A dialog under construction. `Element` is the widget type of the toolkit
/// that will show it.
pub struct Dialog<'a, Element> {
    title: Option<Cow<'a, str>>,
    icon: Option<Element>,
    body: Option<Cow<'a, str>>,
    controls: Vec<Element>,
    primary_action: Option<Element>,
    secondary_action: Option<Element>,
    tertiary_action: Option<Element>,
}

/// What a dialog holds.
pub ghost struct DialogView<'a, Element> {
    pub title: Option<Cow<'a, str>>,
    pub icon: Option<Element>,
    pub body: Option<Cow<'a, str>>,
    pub controls: Seq<Element>,
    pub primary_action: Option<Element>,
    pub secondary_action: Option<Element>,
    pub tertiary_action: Option<Element>,
}

impl<'a, Element> DialogView<'a, Element> {
    /// The dialog that holds nothing.
    pub open spec fn empty() -> Self {
        DialogView {
            title: None,
            icon: None,
            body: None,
            controls: Seq::empty(),
            primary_action: None,
            secondary_action: None,
            tertiary_action: None,
        }
    }
}

impl<'a, Element> View for Dialog<'a, Element> {
    type V = DialogView<'a, Element>;

    closed spec fn view(&self) -> DialogView<'a, Element> {
        DialogView {
            title: self.title,
            icon: self.icon,
            body: self.body,
            controls: self.controls@,
            primary_action: self.primary_action,
            secondary_action: self.secondary_action,
            tertiary_action: self.tertiary_action,
        }
    }
}

impl<'a, Element> Default for Dialog<'a, Element> {
    /// The empty dialog.
    fn default() -> (dialog: Self)
        ensures
            dialog@ == DialogView::<'a, Element>::empty(),
    {
        Self::new()
    }
}

impl<'a, Element> Dialog<'a, Element> {
    /// Creates an empty dialog.
    pub fn new() -> (dialog: Self)
        ensures
            dialog@ == DialogView::<'a, Element>::empty(),
    {
        Self {
            title: None,
            icon: None,
            body: None,
            controls: Vec::new(),
            primary_action: None,
            secondary_action: None,
            tertiary_action: None,
        }
    }

    /// Sets the title to what `title` converts into. Nothing else changes.
    pub fn title<T: Into<Cow<'a, str>>>(self, title: T) -> (dialog: Self)
        ensures
            dialog@.title matches Some(set) && call_ensures(T::into, (title,), set),
            dialog@ == (DialogView { title: dialog@.title, ..self@ }),
    {
        let mut dialog = self;
        dialog.title = Some(title.into());
        dialog
    }

    /// Sets the icon to what `icon` converts into. Nothing else changes.
    pub fn icon<T: Into<Element>>(self, icon: T) -> (dialog: Self)
        ensures
            dialog@.icon matches Some(set) && call_ensures(T::into, (icon,), set),
            dialog@ == (DialogView { icon: dialog@.icon, ..self@ }),
    {
        let mut dialog = self;
        dialog.icon = Some(icon.into());
        dialog
    }

    /// Sets the body to what `body` converts into. Nothing else changes.
    pub fn body<T: Into<Cow<'a, str>>>(self, body: T) -> (dialog: Self)
        ensures
            dialog@.body matches Some(set) && call_ensures(T::into, (body,), set),
            dialog@ == (DialogView { body: dialog@.body, ..self@ }),
    {
        let mut dialog = self;
        dialog.body = Some(body.into());
        dialog
    }

    /// Adds what `control` converts into behind the controls that are
    /// there. Nothing else changes.
    pub fn control<T: Into<Element>>(self, control: T) -> (dialog: Self)
        ensures
            dialog@.controls.len() == self@.controls.len() + 1,
            call_ensures(T::into, (control,), dialog@.controls.last()),
            dialog@ == (DialogView {
                controls: self@.controls.push(dialog@.controls.last()),
                ..self@
            }),
    {
        let mut dialog = self;
        dialog.controls.push(control.into());
        dialog
    }

    /// Sets the primary action to what `button` converts into. Nothing else
    /// changes.
    pub fn primary_action<T: Into<Element>>(self, button: T) -> (dialog: Self)
        ensures
            dialog@.primary_action matches Some(set) && call_ensures(T::into, (button,), set),
            dialog@ == (DialogView { primary_action: dialog@.primary_action, ..self@ }),
    {
        let mut dialog = self;
        dialog.primary_action = Some(button.into());
        dialog
    }

    /// Sets the secondary action to what `button` converts into. Nothing
    /// else changes.
    pub fn secondary_action<T: Into<Element>>(self, button: T) -> (dialog: Self)
        ensures
            dialog@.secondary_action matches Some(set) && call_ensures(T::into, (button,), set),
            dialog@ == (DialogView { secondary_action: dialog@.secondary_action, ..self@ }),
    {
        let mut dialog = self;
        dialog.secondary_action = Some(button.into());
        dialog
    }

    /// Sets the tertiary action to what `button` converts into. Nothing else
    /// changes.
    pub fn tertiary_action<T: Into<Element>>(self, button: T) -> (dialog: Self)
        ensures
            dialog@.tertiary_action matches Some(set) && call_ensures(T::into, (button,), set),
            dialog@ == (DialogView { tertiary_action: dialog@.tertiary_action, ..self@ }),
    {
        let mut dialog = self;
        dialog.tertiary_action = Some(button.into());
        dialog
    }

    /// Lays the dialog out with the spacing steps of a theme.
    pub fn arrange(self, spacing: Spacing) -> (arrangement: Arrangement<'a, Element>)
        ensures
            arrangement.icon == self@.icon,
            arrangement.content@ == content_of(self@, spacing),
            arrangement.actions@ == actions_of(self@),
            arrangement.content_spacing == spacing.space_s,
            arrangement.action_spacing == spacing.space_xxs,
            arrangement.spacing == spacing.space_l,
            arrangement.padding == spacing.space_m,
            arrangement.width == DIALOG_WIDTH,
    {
        let ghost view = self@;
        let mut content: Vec<Content<'a, Element>> = Vec::new();
        let mut should_space = false;
        if let Some(title) = self.title {
            content.push(Content::Title(title));
            should_space = true;
        }
        if let Some(body) = self.body {
            if should_space {
                content.push(Content::Space(spacing.space_xxs));
            }
            content.push(Content::Body(body));
            should_space = true;
        }
        let ghost above = content@;
        let ghost below = should_space;
        for control in iter: self.controls
            invariant
                iter.seq() == view.controls,
                should_space == (below || iter.index() > 0),
                content@ == above + controls_of::<Element>(
                    view.controls.take(iter.index()),
                    below,
                    spacing.space_s,
                ),
        {
            proof {
                lemma_controls_push::<Element>(
                    view.controls.take(iter.index()),
                    control,
                    below,
                    spacing.space_s,
                );
                assert(view.controls.take(iter.index() + 1) =~= view.controls.take(
                    iter.index(),
                ).push(control));
            }
            if should_space {
                content.push(Content::Space(spacing.space_s));
            }
            content.push(Content::Control(control));
            should_space = true;
        }
        assert(view.controls.take(view.controls.len() as int) =~= view.controls);
        assert(content@ =~= content_of(view, spacing));

        let mut actions: Vec<Action<Element>> = Vec::new();
        if let Some(button) = self.tertiary_action {
            actions.push(Action::Button(button));
        }
        actions.push(Action::Filler);
        if let Some(button) = self.secondary_action {
            actions.push(Action::Button(button));
        }
        if let Some(button) = self.primary_action {
            actions.push(Action::Button(button));
        }
        assert(actions@ =~= actions_of(view));

        Arrangement {
            icon: self.icon,
            content,
            actions,
            content_spacing: spacing.space_s,
            action_spacing: spacing.space_xxs,
            spacing: spacing.space_l,
            padding: spacing.space_m,
            width: DIALOG_WIDTH,
        }
    }
}

/// One more control adds its entry to the column, behind space unless it is
/// the first entry of all.
pub proof fn lemma_controls_push<'a, Element>(
    controls: Seq<Element>,
    control: Element,
    below: bool,
    gap: u16,
)
    ensures
        controls_of::<Element>(controls.push(control), below, gap) == if below || controls.len()
            > 0 {
            controls_of::<Element>(controls, below, gap).push(Content::Space(gap)).push(
                Content::Control(control),
            )
        } else {
            controls_of::<Element>(controls, below, gap).push(Content::Control(control))
        },
{
    let longer = controls_of::<Element>(controls.push(control), below, gap);
    let shorter = controls_of::<Element>(controls, below, gap);
    if below || controls.len() > 0 {
        assert(longer =~= shorter.push(Content::Space(gap)).push(Content::Control(control)));
    } else {
        assert(longer =~= shorter.push(Content::Control(control)));
    }
}

} // verus!
