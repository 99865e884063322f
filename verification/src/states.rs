//! The screens around a play session: what their keys do.

use vstd::prelude::*;
use crate::rank::Rank;

verus! {

/// What a screen asks of its surroundings.
#[derive(Copy, Clone, Debug, PartialEq, Eq, Structural)]
pub enum StateAction {
    /// Nothing is asked.
    Idle,
    Quit,
    GotoWelcome,
    GoToCollection,
    /// Play the chart at index `chart` of the song at index `song`.
    GoToPlaying { song: usize, chart: usize },
    StartAudio,
    TogglePause,
    ShowResult { score: u32, rank: Rank },
}

/// A key as a menu sees it.
#[derive(Copy, Clone, Debug, PartialEq, Eq, Structural)]
pub enum MenuKey {
    /// `q` or escape.
    Quit,
    /// Up, left, `w` or `a`.
    Up,
    /// Down, right, `s` or `d`.
    Down,
    Enter,
    /// The space bar or a line feed.
    Space,
    Other,
}

/// The first screen.
#[derive(Copy, Clone, Debug, PartialEq, Eq, Structural)]
pub struct WelcomeState;

/// The screen on which a song and then one of its charts is chosen.
#[derive(Copy, Clone, Debug, PartialEq, Eq, Structural)]
pub struct CollectionState {
    /// The song under the cursor; none if there are no songs.
    pub song_cursor: Option<usize>,
    /// The chart under the cursor, while a chart is chosen.
    pub chart_cursor: usize,
    /// Whether a chart is chosen, rather than a song.
    pub is_selecting_chart: bool,
}

/// The index before `cursor` among `count`, going round from the first to
/// the last.
pub open spec fn step_up(cursor: usize, count: usize) -> usize {
    if cursor == 0 {
        (count - 1) as usize
    } else {
        (cursor - 1) as usize
    }
}

/// The index after `cursor` among `count`, going round from the last to
/// the first.
pub open spec fn step_down(cursor: usize, count: usize) -> usize {
    if cursor == usize::MAX {
        0
    } else {
        ((cursor + 1) % (count as int)) as usize
    }
}

impl WelcomeState {
    /// The leaving key quits; enter and the space bar go on to the collection.
    pub open spec fn key(key: MenuKey) -> StateAction {
        match key {
            MenuKey::Quit => StateAction::Quit,
            MenuKey::Enter => StateAction::GoToCollection,
            MenuKey::Space => StateAction::GoToCollection,
            _ => StateAction::Idle,
        }
    }

    pub fn handle_input(&mut self, key: MenuKey) -> (action: StateAction)
        ensures
            action == WelcomeState::key(key),
    {
        match key {
            MenuKey::Quit => StateAction::Quit,
            MenuKey::Enter | MenuKey::Space => StateAction::GoToCollection,
            _ => StateAction::Idle,
        }
    }
}

/// On the result screen the leaving key goes back to the collection.
pub open spec fn result_key(key: MenuKey) -> StateAction {
    match key {
        MenuKey::Quit => StateAction::GoToCollection,
        _ => StateAction::Idle,
    }
}

/// What a key does on the result screen.
pub fn result_handle_input(key: MenuKey) -> (action: StateAction)
    ensures
        action == result_key(key),
{
    match key {
        MenuKey::Quit => StateAction::GoToCollection,
        _ => StateAction::Idle,
    }
}

impl CollectionState {
    /// The cursors point at what there is: the song cursor at one of
    /// `song_count` songs, and while a chart is chosen, the chart cursor at
    /// one of the `chart_count` charts of that song.
    pub open spec fn wf(&self, song_count: usize, chart_count: usize) -> bool {
        &&& self.song_cursor matches Some(c) ==> c < song_count
        &&& self.is_selecting_chart ==> self.song_cursor is Some && self.chart_cursor < chart_count
    }

    /// The screen after the cursor moved up.
    pub open spec fn moved_up(&self, song_count: usize, chart_count: usize) -> CollectionState {
        if self.is_selecting_chart {
            CollectionState { chart_cursor: step_up(self.chart_cursor, chart_count), ..*self }
        } else {
            match self.song_cursor {
                Some(c) => CollectionState { song_cursor: Some(step_up(c, song_count)), ..*self },
                None => *self,
            }
        }
    }

    /// The screen after the cursor moved down.
    pub open spec fn moved_down(&self, song_count: usize, chart_count: usize) -> CollectionState {
        if self.is_selecting_chart {
            CollectionState { chart_cursor: step_down(self.chart_cursor, chart_count), ..*self }
        } else {
            match self.song_cursor {
                Some(c) => CollectionState { song_cursor: Some(step_down(c, song_count)), ..*self },
                None => *self,
            }
        }
    }

    /// What a key does: the screen after it and what is asked.
    ///
    /// The leaving key ends the choice of a chart, or leaves for the first
    /// screen. The cursor keys move the cursor if there is a song. Enter on a
    /// song with charts begins the choice of a chart at the first one; enter
    /// on a chart asks to play it.
    pub open spec fn key(&self, key: MenuKey, song_count: usize, chart_count: usize) -> (
        CollectionState,
        StateAction,
    ) {
        match key {
            MenuKey::Quit => if self.is_selecting_chart {
                (CollectionState { is_selecting_chart: false, ..*self }, StateAction::Idle)
            } else {
                (*self, StateAction::GotoWelcome)
            },
            MenuKey::Up => (
                if self.song_cursor is Some {
                    self.moved_up(song_count, chart_count)
                } else {
                    *self
                },
                StateAction::Idle,
            ),
            MenuKey::Down => (
                if self.song_cursor is Some {
                    self.moved_down(song_count, chart_count)
                } else {
                    *self
                },
                StateAction::Idle,
            ),
            MenuKey::Enter => match self.song_cursor {
                Some(song) => if self.is_selecting_chart {
                    (*self, StateAction::GoToPlaying { song, chart: self.chart_cursor })
                } else if chart_count != 0 {
                    (
                        CollectionState { is_selecting_chart: true, chart_cursor: 0, ..*self },
                        StateAction::Idle,
                    )
                } else {
                    (*self, StateAction::Idle)
                },
                None => (*self, StateAction::Idle),
            },
            _ => (*self, StateAction::Idle),
        }
    }

    /// The screen as it opens: the cursor on the first song, if there is one.
    pub fn new(song_count: usize) -> (r: Self)
        ensures
            r == (CollectionState {
                song_cursor: if song_count != 0 { Some(0usize) } else { None },
                chart_cursor: 0,
                is_selecting_chart: false,
            }),
            forall|chart_count: usize| r.wf(song_count, chart_count),
    {
        Self {
            song_cursor: if song_count != 0 { Some(0) } else { None },
            chart_cursor: 0,
            is_selecting_chart: false,
        }
    }

    /// Moves the cursor up, round to the last entry from the first.
    pub fn move_up(&mut self, song_count: usize, chart_count: usize)
        requires
            old(self).wf(song_count, chart_count),
        ensures
            *final(self) == old(self).moved_up(song_count, chart_count),
            final(self).wf(song_count, chart_count),
    {
        if self.is_selecting_chart {
            self.chart_cursor = if self.chart_cursor == 0 {
                chart_count - 1
            } else {
                self.chart_cursor - 1
            };
        } else {
            if let Some(c) = self.song_cursor {
                self.song_cursor = Some(if c == 0 { song_count - 1 } else { c - 1 });
            }
        }
    }

    /// Moves the cursor down, round to the first entry from the last.
    pub fn move_down(&mut self, song_count: usize, chart_count: usize)
        requires
            old(self).wf(song_count, chart_count),
        ensures
            *final(self) == old(self).moved_down(song_count, chart_count),
            final(self).wf(song_count, chart_count),
    {
        if self.is_selecting_chart {
            self.chart_cursor = if self.chart_cursor == usize::MAX {
                0
            } else {
                (self.chart_cursor + 1) % chart_count
            };
        } else {
            if let Some(c) = self.song_cursor {
                self.song_cursor = Some(if c == usize::MAX { 0 } else { (c + 1) % song_count });
            }
        }
    }

    /// Handles a key, given the number of songs and the number of charts
    /// of the song under the cursor. Answers what is to be done.
    pub fn handle_input(&mut self, key: MenuKey, song_count: usize, chart_count: usize) -> (action:
        StateAction)
        requires
            old(self).wf(song_count, chart_count),
        ensures
            *final(self) == old(self).key(key, song_count, chart_count).0,
            action == old(self).key(key, song_count, chart_count).1,
            final(self).wf(song_count, chart_count),
            action matches StateAction::GoToPlaying { song, chart } ==> song < song_count && chart
                < chart_count,
    {
        match key {
            MenuKey::Quit => {
                if self.is_selecting_chart {
                    self.is_selecting_chart = false;
                    StateAction::Idle
                } else {
                    StateAction::GotoWelcome
                }
            },
            MenuKey::Up => {
                if self.song_cursor.is_some() {
                    self.move_up(song_count, chart_count);
                }
                StateAction::Idle
            },
            MenuKey::Down => {
                if self.song_cursor.is_some() {
                    self.move_down(song_count, chart_count);
                }
                StateAction::Idle
            },
            MenuKey::Enter => {
                if let Some(s_idx) = self.song_cursor {
                    if self.is_selecting_chart {
                        return StateAction::GoToPlaying { song: s_idx, chart: self.chart_cursor };
                    } else if chart_count != 0 {
                        self.is_selecting_chart = true;
                        self.chart_cursor = 0;
                    }
                }
                StateAction::Idle
            },
            _ => StateAction::Idle,
        }
    }
}

} // verus!
