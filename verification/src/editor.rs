//! The editor mode machine: Normal / Insert / Visual transitions and the
//! action each keystroke asks of the terminal layer.
//!
//! The machine is pure: it reads a keystroke reduced to plain values (which
//! character key, which modifier) together with the screen height and the
//! cursor position, updates the mode, and answers with the single action the
//! surrounding terminal loop must perform.  The loop itself — reading
//! events, queueing cursor moves, redrawing — stays outside the library.

use vstd::prelude::*;

verus! {

/// The editor's input modes.
#[derive(Debug, Clone, Copy, PartialEq, Eq, Structural)]
pub enum Mode {
    Normal,
    Insert,
    Visual,
}

/// A keystroke reduced to what the mode machine reads: a character key, or
/// any other key.
#[derive(Debug, Clone, Copy, PartialEq, Eq, Structural)]
pub enum Key {
    Char(char),
    Other,
}

/// The modifier state of a keystroke: no modifier, control alone, or any
/// other combination.
#[derive(Debug, Clone, Copy, PartialEq, Eq, Structural)]
pub enum KeyModifier {
    Plain,
    Control,
    Other,
}

/// What the terminal layer is asked to do after a keystroke.
#[derive(Debug, Clone, Copy, PartialEq, Eq, Structural)]
pub enum Action {
    Quit,
    MoveLeft,
    MoveRight,
    MoveUp,
    MoveDown,
    Stay,
}

/// The mode after one keystroke.  Control-q quits without changing the
/// mode; only unmodified character keys switch modes, and movement keys
/// leave the mode alone.
pub open spec fn next_mode(m: Mode, key: Key, modifier: KeyModifier) -> Mode {
    if modifier == KeyModifier::Control && key == Key::Char('q') {
        m
    } else if modifier != KeyModifier::Plain {
        m
    } else {
        match m {
            Mode::Normal => if key == Key::Char('i') {
                Mode::Insert
            } else if key == Key::Char('v') {
                Mode::Visual
            } else {
                m
            },
            Mode::Insert => if key == Key::Char('n') {
                Mode::Normal
            } else if key == Key::Char('v') {
                Mode::Visual
            } else {
                m
            },
            Mode::Visual => if key == Key::Char('n') {
                Mode::Normal
            } else if key == Key::Char('i') {
                Mode::Insert
            } else {
                m
            },
        }
    }
}

/// The action one keystroke asks for.  Control-q always quits.  In Normal
/// mode the h/j/k/l keys move the cursor: left only while the column is
/// past the line-number gutter, down only while the row is above the status
/// area, up and right always.  Every other keystroke asks for nothing.
pub open spec fn action_of(
    m: Mode,
    key: Key,
    modifier: KeyModifier,
    height: u16,
    cursor_col: u16,
    cursor_row: u16,
) -> Action {
    if modifier == KeyModifier::Control && key == Key::Char('q') {
        Action::Quit
    } else if m == Mode::Normal && modifier == KeyModifier::Plain {
        if key == Key::Char('h') {
            if cursor_col <= 6 {
                Action::Stay
            } else {
                Action::MoveLeft
            }
        } else if key == Key::Char('j') {
            if cursor_row + 4 < height {
                Action::MoveDown
            } else {
                Action::Stay
            }
        } else if key == Key::Char('k') {
            Action::MoveUp
        } else if key == Key::Char('l') {
            Action::MoveRight
        } else {
            Action::Stay
        }
    } else {
        Action::Stay
    }
}

impl Mode {
    /// The banner text shown for the mode.
    pub fn label(&self) -> (r: &'static str)
        ensures
            *self == Mode::Normal ==> r@ == "NORMAL"@,
            *self == Mode::Insert ==> r@ == "INSERT"@,
            *self == Mode::Visual ==> r@ == "VISUAL"@,
    {
        match self {
            Mode::Normal => "NORMAL",
            Mode::Insert => "INSERT",
            Mode::Visual => "VISUAL",
        }
    }
}

/// The width of the line-number gutter.
pub const GUTTER_WIDTH: usize = 4;

/// The character for one decimal digit.
pub open spec fn digit_char(d: nat) -> char {
    if d == 0 {
        '0'
    } else if d == 1 {
        '1'
    } else if d == 2 {
        '2'
    } else if d == 3 {
        '3'
    } else if d == 4 {
        '4'
    } else if d == 5 {
        '5'
    } else if d == 6 {
        '6'
    } else if d == 7 {
        '7'
    } else if d == 8 {
        '8'
    } else {
        '9'
    }
}

/// The decimal digits of `n`, most significant first.
pub open spec fn decimal_digits(n: nat) -> Seq<char>
    decreases n,
{
    if n < 10 {
        seq![digit_char(n)]
    } else {
        decimal_digits(n / 10).push(digit_char(n % 10))
    }
}

/// The gutter text for line number `n`: its decimal digits right-aligned in
/// a field of `GUTTER_WIDTH` characters, padded with spaces on the left.
pub open spec fn gutter_label_of(n: nat) -> Seq<char> {
    let d = decimal_digits(n);
    if d.len() >= GUTTER_WIDTH {
        d
    } else {
        Seq::new((GUTTER_WIDTH - d.len()) as nat, |i: int| ' ') + d
    }
}

/// The character for one decimal digit.
fn digit(d: u16) -> (c: char)
    requires
        d < 10,
    ensures
        c == digit_char(d as nat),
{
    match d {
        0 => '0',
        1 => '1',
        2 => '2',
        3 => '3',
        4 => '4',
        5 => '5',
        6 => '6',
        7 => '7',
        8 => '8',
        _ => '9',
    }
}

/// The decimal digits of `n`, most significant first.
fn digits(n: u16) -> (r: Vec<char>)
    ensures
        r@ == decimal_digits(n as nat),
        r@.len() >= 1,
    decreases n,
{
    if n < 10 {
        let mut v: Vec<char> = Vec::new();
        v.push(digit(n));
        proof {
            assert(v@ =~= seq![digit_char(n as nat)]);
        }
        v
    } else {
        let mut v = digits(n / 10);
        v.push(digit(n % 10));
        v
    }
}

/// The gutter text for line number `n`, as the terminal layer prints it
/// beside each row.
pub fn gutter_label(n: u16) -> (r: Vec<char>)
    ensures
        r@ == gutter_label_of(n as nat),
{
    let d = digits(n);
    if d.len() >= GUTTER_WIDTH {
        d
    } else {
        let pad = GUTTER_WIDTH - d.len();
        let mut out: Vec<char> = Vec::new();
        let mut i: usize = 0;
        while i < pad
            invariant
                i <= pad,
                out@ == Seq::new(i as nat, |j: int| ' '),
            decreases pad - i,
        {
            out.push(' ');
            proof {
                assert(out@ =~= Seq::new((i + 1) as nat, |j: int| ' '));
            }
            i = i + 1;
        }
        let mut j: usize = 0;
        while j < d.len()
            invariant
                j <= d@.len(),
                out@ == Seq::new(pad as nat, |k: int| ' ') + d@.take(j as int),
                pad == GUTTER_WIDTH - d@.len(),
                d@ == decimal_digits(n as nat),
                d@.len() < GUTTER_WIDTH,
            decreases d@.len() - j,
        {
            out.push(d[j]);
            proof {
                assert(out@ =~= Seq::new(pad as nat, |k: int| ' ') + d@.take(j + 1 as int));
            }
            j = j + 1;
        }
        proof {
            assert(d@.take(d@.len() as int) =~= d@);
        }
        out
    }
}

/// The column at which a greeting of `len` characters is centered on a
/// screen `w` columns wide: just right of the middle, shifted two columns.
pub fn intro_column(w: u16, len: u16) -> (c: u16)
    requires
        len / 2 <= w / 2,
    ensures
        c == w / 2 - len / 2 + 2,
{
    w / 2 - len / 2 + 2
}

/// The editor state the mode machine keeps: the current mode.
pub struct Editor {
    mode: Mode,
}

impl Editor {
    /// The current mode, as specifications see it.
    pub closed spec fn mode_spec(self) -> Mode {
        self.mode
    }

    /// A fresh editor starts in Normal mode.
    pub fn new() -> (e: Editor)
        ensures
            e.mode_spec() == Mode::Normal,
    {
        Editor { mode: Mode::Normal }
    }

    /// The current mode.
    pub fn mode(&self) -> (m: &Mode)
        ensures
            *m == self.mode_spec(),
    {
        &self.mode
    }

    /// Feeds one keystroke to the mode machine: the mode advances by
    /// `next_mode` and the returned action is exactly `action_of`.
    pub fn switch_mode(
        &mut self,
        key: Key,
        modifier: KeyModifier,
        height: u16,
        cursor_col: u16,
        cursor_row: u16,
    ) -> (a: Action)
        ensures
            final(self).mode_spec() == next_mode(old(self).mode_spec(), key, modifier),
            a == action_of(old(self).mode_spec(), key, modifier, height, cursor_col, cursor_row),
    {
        if modifier == KeyModifier::Control && key == Key::Char('q') {
            return Action::Quit;
        }
        if modifier != KeyModifier::Plain {
            return Action::Stay;
        }
        match self.mode {
            Mode::Normal => {
                if key == Key::Char('i') {
                    self.mode = Mode::Insert;
                    Action::Stay
                } else if key == Key::Char('v') {
                    self.mode = Mode::Visual;
                    Action::Stay
                } else if key == Key::Char('h') {
                    if cursor_col <= 6 {
                        Action::Stay
                    } else {
                        Action::MoveLeft
                    }
                } else if key == Key::Char('j') {
                    if cursor_row as u32 + 4 < height as u32 {
                        Action::MoveDown
                    } else {
                        Action::Stay
                    }
                } else if key == Key::Char('k') {
                    Action::MoveUp
                } else if key == Key::Char('l') {
                    Action::MoveRight
                } else {
                    Action::Stay
                }
            },
            Mode::Insert => {
                if key == Key::Char('n') {
                    self.mode = Mode::Normal;
                } else if key == Key::Char('v') {
                    self.mode = Mode::Visual;
                }
                Action::Stay
            },
            Mode::Visual => {
                if key == Key::Char('n') {
                    self.mode = Mode::Normal;
                } else if key == Key::Char('i') {
                    self.mode = Mode::Insert;
                }
                Action::Stay
            },
        }
    }
}

} // verus!
