//! The pager: where the reader stands in the document, the three commands
//! that move it, and how far the document has been read.

use vstd::prelude::*;

verus! {

/// What the reader can ask of the pager.
#[derive(Clone, Copy, PartialEq, Eq, Debug)]
pub enum Command {
    /// One line further down.
    MoveDown,
    /// One line back up.
    MoveUp,
    /// Leave.
    Quit,
}

impl Command {
    /// The command that a key stands for: `j` moves down, `k` moves up,
    /// `q` quits, and no other key does anything.
    pub open spec fn of_key(key: char) -> Option<Command> {
        if key == 'j' {
            Some(Command::MoveDown)
        } else if key == 'k' {
            Some(Command::MoveUp)
        } else if key == 'q' {
            Some(Command::Quit)
        } else {
            None
        }
    }

    /// The command that a key stands for, if any.
    pub fn from_key(key: char) -> (command: Option<Command>)
        ensures
            command == Command::of_key(key),
    {
        if key == 'j' {
            Some(Command::MoveDown)
        } else if key == 'k' {
            Some(Command::MoveUp)
        } else if key == 'q' {
            Some(Command::Quit)
        } else {
            None
        }
    }
}

/// `x`, or the nearer of the two bounds where it lies outside them.
pub open spec fn clamp(x: int, low: int, high: int) -> int {
    if x < low {
        low
    } else if x > high {
        high
    } else {
        x
    }
}

/// The pager's state, as numbers.
pub struct Pager {
    /// The first line shown.
    pub scroll_offset: nat,
    /// How many lines the document has.
    pub total_lines: nat,
    /// Whether the reader has quit.
    pub should_quit: bool,
}

impl Pager {
    /// The offset lies within the document.
    pub open spec fn valid(self) -> bool {
        self.scroll_offset <= self.total_lines
    }

    /// The state after one command.
    ///
    /// Moving down stops at the last line, moving up stops at the first.
    /// Once the reader has quit, no command changes anything.
    pub open spec fn step(self, command: Command) -> Pager {
        if self.should_quit {
            self
        } else {
            match command {
                Command::MoveDown => Pager {
                    scroll_offset: if self.scroll_offset + 1 <= self.total_lines {
                        self.scroll_offset + 1
                    } else {
                        self.total_lines
                    },
                    ..self
                },
                Command::MoveUp => Pager {
                    scroll_offset: if self.scroll_offset >= 1 {
                        (self.scroll_offset - 1) as nat
                    } else {
                        0
                    },
                    ..self
                },
                Command::Quit => Pager { should_quit: true, ..self },
            }
        }
    }

    /// The state after a sequence of commands, in order.
    pub open spec fn run(self, commands: Seq<Command>) -> Pager
        decreases commands.len(),
    {
        if commands.len() == 0 {
            self
        } else {
            self.step(commands[0]).run(commands.drop_first())
        }
    }

    /// How many lines count as read, of how many: the last line of a
    /// viewport of `viewport_height` lines that starts at the offset, kept
    /// within the document. An empty document counts as read: one of one.
    pub open spec fn progress(self, viewport_height: nat) -> (nat, nat) {
        if self.total_lines == 0 {
            (1, 1)
        } else {
            (
                clamp(self.scroll_offset + viewport_height - 1, 0, self.total_lines as int) as nat,
                self.total_lines,
            )
        }
    }

    /// No sequence of commands takes the offset out of the document, or
    /// changes how many lines the document has.
    pub proof fn lemma_run_stays_valid(self, commands: Seq<Command>)
        requires
            self.valid(),
        ensures
            self.run(commands).valid(),
            self.run(commands).total_lines == self.total_lines,
        decreases commands.len(),
    {
        if commands.len() > 0 {
            self.step(commands[0]).lemma_run_stays_valid(commands.drop_first());
        }
    }

    /// Moving up from the first line, or down from the last, changes
    /// nothing.
    pub proof fn lemma_step_stops_at_bounds(self)
        requires
            self.valid(),
        ensures
            self.scroll_offset == 0 ==> self.step(Command::MoveUp) == self,
            self.scroll_offset == self.total_lines ==> self.step(Command::MoveDown) == self,
    {
    }

    /// Once the reader has quit, no sequence of commands changes the
    /// state.
    pub proof fn lemma_run_after_quit(self, commands: Seq<Command>)
        requires
            self.should_quit,
        ensures
            self.run(commands) == self,
        decreases commands.len(),
    {
        if commands.len() > 0 {
            self.lemma_run_after_quit(commands.drop_first());
        }
    }

    /// Progress never goes back as the offset grows: for the same viewport
    /// and the same document, a larger offset counts at least as many lines
    /// as read, of the same number.
    pub proof fn lemma_progress_monotonic(self, later: Pager, viewport_height: nat)
        requires
            self.total_lines == later.total_lines,
            self.scroll_offset <= later.scroll_offset,
        ensures
            self.progress(viewport_height).1 == later.progress(viewport_height).1,
            self.progress(viewport_height).0 <= later.progress(viewport_height).0,
    {
    }

    /// Progress is a fraction between nought and one, and it is one for an
    /// empty document.
    pub proof fn lemma_progress_is_fraction(self, viewport_height: nat)
        ensures
            self.progress(viewport_height).1 > 0,
            self.progress(viewport_height).0 <= self.progress(viewport_height).1,
            self.total_lines == 0 ==> self.progress(viewport_height).0 == self.progress(
                viewport_height,
            ).1,
    {
    }
}

/// How much of the document has been read, as an exact fraction.
#[derive(Clone, Copy, PartialEq, Eq, Debug)]
pub struct Progress {
    /// How many lines count as read.
    pub numerator: usize,
    /// Of how many. Never nought.
    pub denominator: usize,
}

impl Progress {
    /// Whether the whole document counts as read.
    pub fn is_complete(&self) -> (complete: bool)
        ensures
            complete == (self.numerator >= self.denominator),
    {
        self.numerator >= self.denominator
    }
}

/// Where the reader stands in a document.
pub struct PagerState {
    scroll_offset: usize,
    total_lines: usize,
    should_quit: bool,
}

impl View for PagerState {
    type V = Pager;

    closed spec fn view(&self) -> Pager {
        Pager {
            scroll_offset: self.scroll_offset as nat,
            total_lines: self.total_lines as nat,
            should_quit: self.should_quit,
        }
    }
}

impl PagerState {
    #[verifier::type_invariant]
    spec fn within_document(&self) -> bool {
        self.scroll_offset <= self.total_lines
    }

    /// A pager at the top of a document of `total_lines` lines.
    pub fn new(total_lines: usize) -> (state: Self)
        ensures
            state@ == (Pager { scroll_offset: 0, total_lines: total_lines as nat, should_quit: false }),
    {
        PagerState { scroll_offset: 0, total_lines, should_quit: false }
    }

    /// The first line shown. It lies within the document.
    pub fn scroll_offset(&self) -> (offset: usize)
        ensures
            offset == self@.scroll_offset,
            self@.valid(),
    {
        proof {
            use_type_invariant(self);
        }
        self.scroll_offset
    }

    /// How many lines the document has.
    pub fn total_lines(&self) -> (total: usize)
        ensures
            total == self@.total_lines,
    {
        self.total_lines
    }

    /// Whether the reader has quit.
    pub fn should_quit(&self) -> (quit: bool)
        ensures
            quit == self@.should_quit,
    {
        self.should_quit
    }

    /// Carries out one command.
    pub fn apply(&mut self, command: Command)
        ensures
            final(self)@ == old(self)@.step(command),
            final(self)@.valid(),
    {
        proof {
            use_type_invariant(&*self);
        }
        if self.should_quit {
            return ;
        }
        match command {
            Command::MoveDown => {
                if self.scroll_offset < self.total_lines {
                    self.scroll_offset = self.scroll_offset + 1;
                }
            },
            Command::MoveUp => {
                if self.scroll_offset > 0 {
                    self.scroll_offset = self.scroll_offset - 1;
                }
            },
            Command::Quit => {
                self.should_quit = true;
            },
        }
    }

    /// How much of the document has been read when `viewport_height` lines
    /// are shown from the offset on.
    pub fn progress(&self, viewport_height: usize) -> (progress: Progress)
        ensures
            (progress.numerator as nat, progress.denominator as nat) == self@.progress(
                viewport_height as nat,
            ),
            progress.numerator <= progress.denominator,
            progress.denominator > 0,
    {
        proof {
            use_type_invariant(self);
        }
        if self.total_lines == 0 {
            Progress { numerator: 1, denominator: 1 }
        } else if viewport_height == 0 {
            let numerator: usize = if self.scroll_offset == 0 {
                0
            } else {
                self.scroll_offset - 1
            };
            Progress { numerator, denominator: self.total_lines }
        } else if viewport_height - 1 >= self.total_lines - self.scroll_offset {
            Progress { numerator: self.total_lines, denominator: self.total_lines }
        } else {
            Progress {
                numerator: self.scroll_offset + (viewport_height - 1),
                denominator: self.total_lines,
            }
        }
    }
}

} // verus!
