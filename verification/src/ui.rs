//! The state of the interface that does not depend on a terminal: what is
//! selected, and the line of input at its foot.

use crate::text::{push_char, slice_to_string, to_chars};
use vstd::prelude::*;

verus! {

/// A key that was pressed.
#[derive(Clone, Copy, Debug, PartialEq, Eq, Structural)]
pub enum Key {
    Char(char),
    Backspace,
    Esc,
    Left,
    Right,
    Up,
    Down,
    Other,
}

/// What the arrow keys move through: the series or the seasons of one.
#[derive(Clone, Copy, Debug, PartialEq, Eq, Structural)]
pub enum Selection {
    Series,
    Season,
}

impl Selection {
    /// The other of the two.
    pub open spec fn spec_opposite(self) -> Selection {
        match self {
            Selection::Series => Selection::Season,
            Selection::Season => Selection::Series,
        }
    }

    /// The other of the two.
    #[verifier::when_used_as_spec(spec_opposite)]
    pub fn opposite(self) -> (r: Selection)
        ensures
            r == self.spec_opposite(),
    {
        match self {
            Selection::Series => Selection::Season,
            Selection::Season => Selection::Series,
        }
    }

    /// Turns to the other of the two.
    pub fn set_opposite(&mut self)
        ensures
            *final(self) == old(self).opposite(),
    {
        *self = self.opposite();
    }
}

/// A line of input, by what is asked for.
#[derive(Debug, PartialEq, Eq)]
pub enum InputType {
    Score(String),
    SeriesPlayerArgs(String),
}

/// An `InputType` with its line as a sequence of characters.
pub ghost enum InputTypeView {
    Score(Seq<char>),
    SeriesPlayerArgs(Seq<char>),
}

impl InputTypeView {
    /// The line.
    pub open spec fn contents(self) -> Seq<char> {
        match self {
            InputTypeView::Score(contents) => contents,
            InputTypeView::SeriesPlayerArgs(contents) => contents,
        }
    }

    /// The same kind of input with the line `contents`.
    pub open spec fn with_contents(self, contents: Seq<char>) -> InputTypeView {
        match self {
            InputTypeView::Score(_) => InputTypeView::Score(contents),
            InputTypeView::SeriesPlayerArgs(_) => InputTypeView::SeriesPlayerArgs(contents),
        }
    }

    /// The input after the key `key`, which is none that ends it: a
    /// character is added to the line, a tab as a space, and backspace takes
    /// the last character away.
    pub open spec fn edited(self, key: Key) -> InputTypeView {
        match key {
            Key::Char(ch) => self.with_contents(
                self.contents().push(
                    if ch == '\t' {
                        ' '
                    } else {
                        ch
                    },
                ),
            ),
            Key::Backspace => if self.contents().len() > 0 {
                self.with_contents(self.contents().drop_last())
            } else {
                self
            },
            _ => self,
        }
    }
}

impl View for InputType {
    type V = InputTypeView;

    open spec fn view(&self) -> InputTypeView {
        match *self {
            InputType::Score(contents) => InputTypeView::Score(contents@),
            InputType::SeriesPlayerArgs(contents) => InputTypeView::SeriesPlayerArgs(contents@),
        }
    }
}

impl InputType {
    /// An empty line for a score.
    pub fn score() -> (r: InputType)
        ensures
            r@ == InputTypeView::Score(Seq::empty()),
    {
        InputType::Score(String::new())
    }

    /// An empty line for the arguments of the player.
    pub fn series_player_args() -> (r: InputType)
        ensures
            r@ == InputTypeView::SeriesPlayerArgs(Seq::empty()),
    {
        InputType::SeriesPlayerArgs(String::new())
    }

    /// The line.
    pub fn contents(&self) -> (r: &String)
        ensures
            r@ == self@.contents(),
    {
        match self {
            InputType::Score(contents) => contents,
            InputType::SeriesPlayerArgs(contents) => contents,
        }
    }

    /// The input after the key `key`, which is none that ends it.
    fn edit(self, key: Key) -> (r: InputType)
        ensures
            r@ == self@.edited(key),
    {
        let (score, contents) = match self {
            InputType::Score(contents) => (true, contents),
            InputType::SeriesPlayerArgs(contents) => (false, contents),
        };
        let mut contents = contents;
        match key {
            Key::Char(ch) => {
                push_char(
                    &mut contents,
                    if ch == '\t' {
                        ' '
                    } else {
                        ch
                    },
                );
            },
            Key::Backspace => {
                let chars = to_chars(contents.as_str());
                if chars.len() > 0 {
                    contents = slice_to_string(&chars, 0, chars.len() - 1);
                }
            },
            _ => {},
        }
        if score {
            InputType::Score(contents)
        } else {
            InputType::SeriesPlayerArgs(contents)
        }
    }
}

/// What the foot of the interface shows: the log, or a line of input.
#[derive(Debug)]
pub enum StatusBarState {
    Log,
    Input(InputType),
}

/// A `StatusBarState` with its line as a sequence of characters.
pub ghost enum StatusBarStateView {
    Log,
    Input(InputTypeView),
}

impl View for StatusBarState {
    type V = StatusBarStateView;

    open spec fn view(&self) -> StatusBarStateView {
        match *self {
            StatusBarState::Log => StatusBarStateView::Log,
            StatusBarState::Input(input) => StatusBarStateView::Input(input@),
        }
    }
}

impl StatusBarStateView {
    /// What the foot shows after the key `key`. A new line ends the input
    /// and escape gives it up; both bring the log back.
    pub open spec fn after_key(self, key: Key) -> StatusBarStateView {
        match self {
            StatusBarStateView::Log => self,
            StatusBarStateView::Input(input) => match key {
                Key::Char(ch) if ch == '\n' => StatusBarStateView::Log,
                Key::Esc => StatusBarStateView::Log,
                _ => StatusBarStateView::Input(input.edited(key)),
            },
        }
    }

    /// The input that the key `key` ends: the line as it stands, where the
    /// key is a new line.
    pub open spec fn completed_by(self, key: Key) -> Option<InputTypeView> {
        match self {
            StatusBarStateView::Input(input) if key == Key::Char('\n') => Some(input),
            _ => None,
        }
    }
}

impl StatusBarState {
    /// The foot as it is at first: it shows the log.
    pub fn new() -> (r: StatusBarState)
        ensures
            r@ == StatusBarStateView::Log,
    {
        StatusBarState::Log
    }

    /// Whether a line of input is shown.
    pub fn in_input_dialog(&self) -> (r: bool)
        ensures
            r == (self@ is Input),
    {
        match self {
            StatusBarState::Log => false,
            StatusBarState::Input(_) => true,
        }
    }

    /// Takes the key `key`. Where it ends a line of input, the input is
    /// handed out.
    pub fn process_key(&mut self, key: Key) -> (r: Option<InputType>)
        ensures
            final(self)@ == old(self)@.after_key(key),
            r.deep_view() == old(self)@.completed_by(key),
    {
        let mut state = StatusBarState::Log;
        std::mem::swap(self, &mut state);
        let input = match state {
            StatusBarState::Log => {
                return None;
            },
            StatusBarState::Input(input) => input,
        };
        match key {
            Key::Char('\n') => Some(input),
            Key::Esc => None,
            _ => {
                *self = StatusBarState::Input(input.edit(key));
                None
            },
        }
    }
}

impl DeepView for InputType {
    type V = InputTypeView;

    open spec fn deep_view(&self) -> InputTypeView {
        self@
    }
}

} // verus!
