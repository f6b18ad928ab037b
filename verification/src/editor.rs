//! Cursor, viewport, and key dispatch state machine.
use crate::document::Document;
use crate::document::doc_delete;
use crate::document::doc_insert;
use crate::row::graphemes_of;
use vstd::prelude::*;

verus! {

/// How many times quit must be pressed to leave a dirty document.
pub const QUIT_TIMES: u8 = 3;

/// A cursor or scroll position: `y` indexes a row (the row count itself
/// stands for "just past the last row"), `x` a grapheme offset within it.
#[derive(Clone, Copy, Debug, PartialEq, Eq, Structural)]
pub struct Position {
    pub x: usize,
    pub y: usize,
}

/// A key event, as the state machine reads it.
#[derive(Clone, Copy, Debug)]
pub enum Key {
    Up,
    Down,
    Left,
    Right,
    PageUp,
    PageDown,
    Home,
    End,
    Delete,
    Backspace,
    Esc,
    Char(char),
    Quit,
    Save,
    Other,
}

/// What the status bar should say.
#[derive(Clone, Debug, PartialEq)]
pub enum Status {
    Empty,
    Text(String),
    QuitWarning(u8),
    SaveAborted,
    Saved,
    SaveFailed,
}

/// What one key did to the save-as prompt.
#[derive(Clone, Copy, Debug, PartialEq, Eq, Structural)]
pub enum PromptStep {
    Pending,
    Submitted,
    Cancelled,
}

/// The length in clusters of row `y`, or zero where no such row exists.
pub open spec fn row_len_in(v: Seq<Seq<char>>, y: int) -> int {
    if 0 <= y < v.len() {
        graphemes_of(v[y]).len() as int
    } else {
        0
    }
}

/// Where the cursor stands after one motion key: up and down step a row,
/// left and right step a cluster and wrap over line ends, paging steps a
/// screen, home and end jump within the row, and the column is then
/// clamped to the target row's length.
pub open spec fn cursor_after(v: Seq<Seq<char>>, p: Position, key: Key, term_height: int) -> Position {
    let h = v.len() as int;
    let x = p.x as int;
    let y = p.y as int;
    let rl = row_len_in(v, y);
    let m: (int, int) = match key {
        Key::Up => (x, if y > 0 { y - 1 } else { 0 }),
        Key::Down => (x, if y < h { y + 1 } else { y }),
        Key::Left => if x > 0 {
            (x - 1, y)
        } else if y > 0 {
            (row_len_in(v, y - 1), y - 1)
        } else {
            (x, y)
        },
        Key::Right => if x < rl {
            (x + 1, y)
        } else if y < h {
            (0, y + 1)
        } else {
            (x, y)
        },
        Key::PageUp => (x, if y > term_height { y - term_height } else { 0 }),
        Key::PageDown => (x, if y + term_height < h { y + term_height } else { h }),
        Key::Home => (0, y),
        Key::End => (rl, y),
        _ => (x, y),
    };
    let rl2 = row_len_in(v, m.1);
    (Position { x: (if m.0 > rl2 { rl2 } else { m.0 }) as usize, y: m.1 as usize })
}

/// The scroll offset in one dimension after the cursor moved: it falls
/// back to the cursor when the cursor left the window on the near side,
/// advances to just bring it back when it left on the far side, and
/// stays put otherwise.
pub open spec fn offset_dim_after(o: usize, c: usize, dim: usize) -> usize {
    if c < o {
        c
    } else if c >= o.saturating_add(dim) {
        c.saturating_sub(dim).saturating_add(1)
    } else {
        o
    }
}

/// The scroll offset after the cursor moved, for a window of the given
/// width and height.
pub open spec fn offset_after(off: Position, cur: Position, width: usize, height: usize) -> Position {
    (Position {
        x: offset_dim_after(off.x, cur.x, width),
        y: offset_dim_after(off.y, cur.y, height),
    })
}

/// The row texts after one key: a character is inserted at the cursor,
/// delete removes at the cursor, backspace removes at the position one
/// left-step away unless the cursor is at the origin, and any other key
/// leaves the document alone.
pub open spec fn doc_after_key(v: Seq<Seq<char>>, p: Position, key: Key, th: int) -> Seq<
    Seq<char>,
> {
    match key {
        Key::Char(c) => doc_insert(v, p.y as int, p.x as int, c),
        Key::Delete => doc_delete(v, p.y as int, p.x as int),
        Key::Backspace => if p.x > 0 || p.y > 0 {
            let q = cursor_after(v, p, Key::Left, th);
            doc_delete(v, q.y as int, q.x as int)
        } else {
            v
        },
        _ => v,
    }
}

/// The cursor after one key: a character moves it one step right over
/// the updated document, backspace moves it one step left, a motion key
/// follows the motion rules, and any other key leaves it alone.
pub open spec fn cursor_after_key(v: Seq<Seq<char>>, p: Position, key: Key, th: int) -> Position {
    match key {
        Key::Char(c) => cursor_after(doc_insert(v, p.y as int, p.x as int, c), p, Key::Right, th),
        Key::Backspace => if p.x > 0 || p.y > 0 {
            cursor_after(v, p, Key::Left, th)
        } else {
            p
        },
        Key::Up | Key::Down | Key::Left | Key::Right | Key::PageUp | Key::PageDown | Key::Home
            | Key::End => cursor_after(v, p, key, th),
        _ => p,
    }
}

/// The dirty flag after one key: an edit key raises it unless the edit
/// was rejected as out of range or backspace stood at the origin.
pub open spec fn dirty_after_key(v: Seq<Seq<char>>, d: bool, p: Position, key: Key, th: int) -> bool {
    match key {
        Key::Char(_) => if p.y as int > v.len() {
            d
        } else {
            true
        },
        Key::Delete => if p.y as int >= v.len() {
            d
        } else {
            true
        },
        Key::Backspace => if p.x > 0 || p.y > 0 {
            let q = cursor_after(v, p, Key::Left, th);
            if q.y as int >= v.len() {
                d
            } else {
                true
            }
        } else {
            d
        },
        _ => d,
    }
}

/// The session: the document, the cursor, the scroll offset, the status
/// line, the quit confirmation counter, and whether the session is over.
pub struct Editor {
    pub should_quit: bool,
    pub document: Document,
    pub offset: Position,
    pub cursor_position: Position,
    pub status: Status,
    pub quit_times: u8,
}

impl Editor {
    /// A fresh session on the given document: cursor and offset at the
    /// origin, full quit counter, nothing to say.
    pub fn new(document: Document) -> (r: Editor)
        ensures
            r.document == document,
            r.should_quit == false,
            r.cursor_position == (Position { x: 0, y: 0 }),
            r.offset == (Position { x: 0, y: 0 }),
            r.status == Status::Empty,
            r.quit_times == QUIT_TIMES,
    {
        Editor {
            should_quit: false,
            document,
            offset: Position { x: 0, y: 0 },
            cursor_position: Position { x: 0, y: 0 },
            status: Status::Empty,
            quit_times: QUIT_TIMES,
        }
    }

    pub fn set_status(&mut self, s: Status)
        ensures
            final(self).status == s,
            final(self).document == old(self).document,
            final(self).cursor_position == old(self).cursor_position,
            final(self).offset == old(self).offset,
            final(self).should_quit == old(self).should_quit,
            final(self).quit_times == old(self).quit_times,
    {
        self.status = s;
    }

    /// Applies one cursor motion key, exactly as the motion rules say.
    /// A motion never leaves the cursor out of range: starting from a row
    /// the document has (the one past the last row included), it lands on
    /// such a row, at a column no further than that row's end.
    pub fn move_cursor(&mut self, key: Key, term_height: usize)
        requires
            old(self).document.wf(),
        ensures
            final(self).cursor_position == cursor_after(
                old(self).document.texts(),
                old(self).cursor_position,
                key,
                term_height as int,
            ),
            old(self).cursor_position.y as int <= old(self).document.texts().len() ==> {
                &&& final(self).cursor_position.y as int <= old(self).document.texts().len()
                &&& final(self).cursor_position.x as int <= row_len_in(
                    old(self).document.texts(),
                    final(self).cursor_position.y as int,
                )
            },
            final(self).document == old(self).document,
            final(self).offset == old(self).offset,
            final(self).should_quit == old(self).should_quit,
            final(self).status == old(self).status,
            final(self).quit_times == old(self).quit_times,
    {
        let mut x: usize = self.cursor_position.x;
        let mut y: usize = self.cursor_position.y;
        let doc_height: usize = self.document.len();
        let row_width: usize = match self.document.row(y) {
            Some(row) => row.len(),
            None => 0,
        };
        match key {
            Key::Up => {
                if y > 0 {
                    y = y - 1;
                }
            },
            Key::Down => {
                if y < doc_height {
                    y = y + 1;
                }
            },
            Key::Left => {
                if x > 0 {
                    x = x - 1;
                } else if y > 0 {
                    y = y - 1;
                    x = match self.document.row(y) {
                        Some(row) => row.len(),
                        None => 0,
                    };
                }
            },
            Key::Right => {
                if x < row_width {
                    x = x + 1;
                } else if y < doc_height {
                    y = y + 1;
                    x = 0;
                }
            },
            Key::PageUp => {
                y = if y > term_height {
                    y - term_height
                } else {
                    0
                };
            },
            Key::PageDown => {
                y = if y.saturating_add(term_height) < doc_height {
                    y + term_height
                } else {
                    doc_height
                };
            },
            Key::Home => {
                x = 0;
            },
            Key::End => {
                x = row_width;
            },
            _ => {},
        }
        let new_row_width: usize = match self.document.row(y) {
            Some(row) => row.len(),
            None => 0,
        };
        if x > new_row_width {
            x = new_row_width;
        }
        self.cursor_position = Position { x, y };
    }

    /// Moves the window by the least amount that brings the cursor back
    /// inside it.
    pub fn scroll(&mut self, width: usize, height: usize)
        ensures
            final(self).offset == offset_after(
                old(self).offset,
                old(self).cursor_position,
                width,
                height,
            ),
            final(self).document == old(self).document,
            final(self).cursor_position == old(self).cursor_position,
            final(self).should_quit == old(self).should_quit,
            final(self).status == old(self).status,
            final(self).quit_times == old(self).quit_times,
    {
        let x: usize = self.cursor_position.x;
        let y: usize = self.cursor_position.y;
        if y < self.offset.y {
            self.offset.y = y;
        } else if y >= self.offset.y.saturating_add(height) {
            self.offset.y = y.saturating_sub(height).saturating_add(1);
        }
        if x < self.offset.x {
            self.offset.x = x;
        } else if x >= self.offset.x.saturating_add(width) {
            self.offset.x = x.saturating_sub(width).saturating_add(1);
        }
    }

    /// What every fully handled key ends with: the window follows the
    /// cursor, and any pending quit confirmation is forgotten, clearing
    /// its warning.
    pub fn after_key(&mut self, width: usize, height: usize)
        requires
            old(self).quit_times <= QUIT_TIMES,
        ensures
            final(self).offset == offset_after(
                old(self).offset,
                old(self).cursor_position,
                width,
                height,
            ),
            final(self).quit_times == QUIT_TIMES,
            final(self).status == (if old(self).quit_times < QUIT_TIMES {
                Status::Empty
            } else {
                old(self).status
            }),
            final(self).document == old(self).document,
            final(self).cursor_position == old(self).cursor_position,
            final(self).should_quit == old(self).should_quit,
    {
        self.scroll(width, height);
        if self.quit_times < QUIT_TIMES {
            self.quit_times = QUIT_TIMES;
            self.status = Status::Empty;
        }
    }

    /// Dispatches one key event.  A quit on a dirty document burns one
    /// press of the confirmation counter, and warns with the presses
    /// still required; once the counter reaches zero, or the document is
    /// clean, the session ends.  A save key only
    /// reports that a save was requested, for the caller to run the save
    /// flow and then call `after_key`.  Every other key edits or moves as
    /// its rules say, then scrolls and resets the quit counter.
    pub fn process_key(&mut self, key: Key, width: usize, height: usize) -> (save_requested:
        bool)
        requires
            old(self).document.wf(),
            old(self).quit_times <= QUIT_TIMES,
        ensures
            final(self).document.wf(),
            final(self).quit_times <= QUIT_TIMES,
            save_requested == (key is Save),
            key is Save ==> *final(self) == *old(self),
            key is Quit && old(self).quit_times > 1 && old(self).document.dirty() ==> {
                &&& final(self).quit_times == old(self).quit_times - 1
                &&& final(self).status == Status::QuitWarning((old(self).quit_times - 1) as u8)
                &&& final(self).should_quit == old(self).should_quit
                &&& final(self).document == old(self).document
                &&& final(self).cursor_position == old(self).cursor_position
                &&& final(self).offset == old(self).offset
            },
            key is Quit && !(old(self).quit_times > 1 && old(self).document.dirty()) ==> {
                &&& final(self).should_quit == true
                &&& final(self).document == old(self).document
                &&& final(self).cursor_position == old(self).cursor_position
                &&& final(self).offset == offset_after(
                    old(self).offset,
                    old(self).cursor_position,
                    width,
                    height,
                )
                &&& final(self).quit_times == QUIT_TIMES
                &&& final(self).status == (if old(self).quit_times < QUIT_TIMES || (
                old(self).document.dirty() && old(self).quit_times == 1) {
                    Status::Empty
                } else {
                    old(self).status
                })
            },
            !(key is Quit) && !(key is Save) ==> {
                &&& final(self).document.texts() == doc_after_key(
                    old(self).document.texts(),
                    old(self).cursor_position,
                    key,
                    height as int,
                )
                &&& final(self).document.dirty() == dirty_after_key(
                    old(self).document.texts(),
                    old(self).document.dirty(),
                    old(self).cursor_position,
                    key,
                    height as int,
                )
                &&& final(self).document.spec_filename() == old(self).document.spec_filename()
                &&& final(self).cursor_position == cursor_after_key(
                    old(self).document.texts(),
                    old(self).cursor_position,
                    key,
                    height as int,
                )
                &&& final(self).offset == offset_after(
                    old(self).offset,
                    final(self).cursor_position,
                    width,
                    height,
                )
                &&& final(self).should_quit == old(self).should_quit
                &&& final(self).quit_times == QUIT_TIMES
                &&& final(self).status == (if old(self).quit_times < QUIT_TIMES {
                    Status::Empty
                } else {
                    old(self).status
                })
            },
    {
        match key {
            Key::Quit => {
                if self.quit_times > 0 && self.document.is_dirty() {
                    self.quit_times = self.quit_times - 1;
                    if self.quit_times > 0 {
                        self.status = Status::QuitWarning(self.quit_times);
                        return false;
                    }
                    // The counter just ran out: this press ends the session.
                    self.should_quit = true;
                } else {
                    self.should_quit = true;
                }
            },
            Key::Save => {
                return true;
            },
            Key::Char(c) => {
                self.document.insert(&self.cursor_position, c);
                self.move_cursor(Key::Right, height);
            },
            Key::Delete => {
                self.document.delete(&self.cursor_position);
            },
            Key::Backspace => {
                if self.cursor_position.x > 0 || self.cursor_position.y > 0 {
                    self.move_cursor(Key::Left, height);
                    self.document.delete(&self.cursor_position);
                }
            },
            Key::Up | Key::Down | Key::Left | Key::Right | Key::PageUp | Key::PageDown
                | Key::Home | Key::End => {
                self.move_cursor(key, height);
            },
            Key::Esc | Key::Other => {},
        }
        self.after_key(width, height);
        false
    }

    /// Records that a save-as prompt was cancelled or submitted empty:
    /// nothing is written and the status line says so.
    pub fn abort_save(&mut self)
        ensures
            final(self).status == Status::SaveAborted,
            final(self).document == old(self).document,
            final(self).cursor_position == old(self).cursor_position,
            final(self).offset == old(self).offset,
            final(self).should_quit == old(self).should_quit,
            final(self).quit_times == old(self).quit_times,
    {
        self.status = Status::SaveAborted;
    }

    /// Records the outcome of writing the document out: success marks
    /// the document clean, failure leaves it as it was, and the status
    /// line reports either way.
    pub fn record_save(&mut self, ok: bool)
        ensures
            final(self).document.texts() == old(self).document.texts(),
            final(self).document.spec_filename() == old(self).document.spec_filename(),
            final(self).document.wf() == old(self).document.wf(),
            final(self).cursor_position == old(self).cursor_position,
            final(self).offset == old(self).offset,
            final(self).should_quit == old(self).should_quit,
            final(self).quit_times == old(self).quit_times,
            ok ==> final(self).document.dirty() == false && final(self).status == Status::Saved,
            !ok ==> final(self).document.dirty() == old(self).document.dirty()
                && final(self).status == Status::SaveFailed,
    {
        if ok {
            self.document.mark_saved();
            self.status = Status::Saved;
        } else {
            self.status = Status::SaveFailed;
        }
    }
}

/// Whether a character is a control character.  It depends on the
/// character alone.
pub uninterp spec fn is_control_char(c: char) -> bool;

/// Relies on `char::is_control` to recognise control characters.
#[verifier::external_body]
fn is_control(c: char) -> (r: bool)
    ensures
        r == is_control_char(c),
{
    c.is_control()
}

/// One key of the save-as prompt: printable characters are appended,
/// backspace removes the last character, enter submits the text as it
/// stands, and escape clears it and cancels.
pub fn prompt_step(input: &mut Vec<char>, key: Key) -> (r: PromptStep)
    ensures
        match key {
            Key::Backspace => r == PromptStep::Pending && final(input)@ == (if old(
                input,
            )@.len() > 0 {
                old(input)@.drop_last()
            } else {
                old(input)@
            }),
            Key::Char(c) => if c == '\n' {
                r == PromptStep::Submitted && final(input)@ == old(input)@
            } else if is_control_char(c) {
                r == PromptStep::Pending && final(input)@ == old(input)@
            } else {
                r == PromptStep::Pending && final(input)@ == old(input)@.push(c)
            },
            Key::Esc => r == PromptStep::Cancelled && final(input)@ == Seq::<char>::empty(),
            _ => r == PromptStep::Pending && final(input)@ == old(input)@,
        },
{
    match key {
        Key::Backspace => {
            if input.len() > 0 {
                let _last = input.pop();
            }
            PromptStep::Pending
        },
        Key::Char(c) => {
            if c == '\n' {
                PromptStep::Submitted
            } else {
                if !is_control(c) {
                    input.push(c);
                }
                PromptStep::Pending
            }
        },
        Key::Esc => {
            input.clear();
            PromptStep::Cancelled
        },
        _ => PromptStep::Pending,
    }
}

/// Stepping right from the end of a line lands at the start of the next
/// row, and stepping left from the start of a line lands at the end of
/// the previous row.
pub proof fn lemma_line_wrap_motion(v: Seq<Seq<char>>, p: Position, th: int)
    ensures
        p.x as int == row_len_in(v, p.y as int) && (p.y as int) < v.len() ==> cursor_after(
            v,
            p,
            Key::Right,
            th,
        ) == (Position { x: 0, y: (p.y + 1) as usize }),
        p.x == 0 && p.y > 0 ==> cursor_after(v, p, Key::Left, th) == (Position {
            x: row_len_in(v, p.y - 1) as usize,
            y: (p.y - 1) as usize,
        }),
{
}

} // verus!
