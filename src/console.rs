//! The byte parser that turns device bytes into display lines, the sample
//! series of the live graph, and the decisions of the event loop.

use vstd::prelude::*;
use vstd::utf8::{encode_utf8, is_ascii_chars};
use crate::text::push_char;
use crate::wraptext::{WrapText, WrapTextState, Movement};

verus! {

/// The hexadecimal digit `d` in upper case, as a byte.
pub open spec fn hex_digit(d: int) -> u8 {
    if d < 10 {
        (48 + d) as u8
    } else {
        (55 + d) as u8
    }
}

/// The bytes written out for a received byte: the byte itself where it is
/// ASCII, else `0x` and its two upper-case hexadecimal digits.
pub open spec fn escaped(b: u8) -> Seq<u8> {
    if b < 128 {
        seq![b]
    } else {
        seq![48u8, 120u8, hex_digit(b as int / 16), hex_digit(b as int % 16)]
    }
}

/// The bytes written out for a run of received bytes.
pub open spec fn escaped_all(bs: Seq<u8>) -> Seq<u8>
    decreases bs.len(),
{
    if bs.len() == 0 {
        Seq::empty()
    } else {
        escaped_all(bs.drop_last()) + escaped(bs.last())
    }
}

/// Bytes read as characters, one for one.
pub open spec fn as_chars(bs: Seq<u8>) -> Seq<char> {
    bs.map_values(|b: u8| b as char)
}

/// The text of a line buffer: its lines joined by newlines.
pub open spec fn joined(lines: Seq<Seq<char>>) -> Seq<char>
    decreases lines.len(),
{
    if lines.len() == 0 {
        Seq::empty()
    } else if lines.len() == 1 {
        lines[0]
    } else {
        joined(lines.drop_last()) + seq!['\n'] + lines.last()
    }
}

/// The texts of a line buffer.
pub open spec fn line_views(lines: Seq<String>) -> Seq<Seq<char>> {
    lines.map_values(|s: String| s@)
}

/// The line buffer after one received byte: a newline opens a new empty
/// line, any other byte extends the last line by its escaped text.
pub open spec fn lines_after_byte(lines: Seq<Seq<char>>, b: u8) -> Seq<Seq<char>> {
    if b == 10 {
        lines.push(Seq::empty())
    } else {
        lines.update(lines.len() - 1, lines.last() + as_chars(escaped(b)))
    }
}

/// The line buffer after a run of received bytes.
pub open spec fn lines_after(lines: Seq<Seq<char>>, bs: Seq<u8>) -> Seq<Seq<char>>
    decreases bs.len(),
{
    if bs.len() == 0 {
        lines
    } else {
        lines_after_byte(lines_after(lines, bs.drop_last()), bs.last())
    }
}

/// The bytes written out for `byte`: the byte itself where it is ASCII,
/// else `0x` and its two upper-case hexadecimal digits.
pub fn escape_byte(byte: u8) -> (r: Vec<u8>)
    ensures
        r@ == escaped(byte),
{
    if byte < 128 {
        vec![byte]
    } else {
        let hi = byte / 16;
        let lo = byte % 16;
        let h = if hi < 10 { 48 + hi } else { 55 + hi };
        let l = if lo < 10 { 48 + lo } else { 55 + lo };
        vec![48u8, 120u8, h, l]
    }
}

/// One received byte never empties the buffer, and the buffer's text grows
/// by the byte's escaped text.
pub proof fn lemma_lines_after_byte(lines: Seq<Seq<char>>, b: u8)
    requires
        lines.len() >= 1,
    ensures
        lines_after_byte(lines, b).len() >= 1,
        joined(lines_after_byte(lines, b)) == joined(lines) + as_chars(escaped(b)),
{
    let r = lines_after_byte(lines, b);
    if b == 10 {
        assert(r.drop_last() == lines);
        assert(as_chars(escaped(b)) == seq!['\n']);
        assert(joined(r) == joined(lines) + seq!['\n'] + Seq::<char>::empty());
        assert(joined(lines) + seq!['\n'] + Seq::<char>::empty() == joined(lines) + seq!['\n']);
    } else {
        let t = as_chars(escaped(b));
        if lines.len() == 1 {
            assert(joined(r) == lines[0] + t);
        } else {
            assert(r.drop_last() == lines.drop_last());
            assert(joined(r) == joined(lines.drop_last()) + seq!['\n'] + (lines.last() + t));
            assert(joined(lines.drop_last()) + seq!['\n'] + (lines.last() + t)
                == joined(lines.drop_last()) + seq!['\n'] + lines.last() + t);
        }
    }
}

/// Whatever bytes arrive, the text written out is the bytes with every
/// non-ASCII byte replaced by its escape, and the line buffer's text grows by
/// exactly that text: joined by newlines, the lines are the transcript.
pub proof fn lemma_transcript(lines: Seq<Seq<char>>, bs: Seq<u8>)
    requires
        lines.len() >= 1,
    ensures
        lines_after(lines, bs).len() >= 1,
        joined(lines_after(lines, bs)) == joined(lines) + as_chars(escaped_all(bs)),
    decreases bs.len(),
{
    if bs.len() > 0 {
        lemma_transcript(lines, bs.drop_last());
        lemma_lines_after_byte(lines_after(lines, bs.drop_last()), bs.last());
        let a = escaped_all(bs.drop_last());
        let e = escaped(bs.last());
        assert(as_chars(a + e) == as_chars(a) + as_chars(e));
    } else {
        assert(joined(lines) + as_chars(Seq::<u8>::empty()) == joined(lines));
    }
}

/// Whether `c` is a decimal digit.
pub open spec fn is_digit(c: char) -> bool {
    '0' <= c && c <= '9'
}

/// The pattern of the numbers that the graph reads from a line: an optional
/// minus sign, digits, and an optional decimal point with more digits.
pub open spec fn number_pattern() -> Seq<char> {
    seq!['(', '\\', '-', '?', '\\', 'd', '+', '\\', '.', '?', '[', '\\', 'd', ']', '*', ')']
}

/// Whether a number starts at `i`: a digit, or a minus sign before a digit.
pub open spec fn number_starts_at(s: Seq<char>, i: int) -> bool {
    0 <= i < s.len() && (is_digit(s[i]) || (s[i] == '-' && i + 1 < s.len() && is_digit(s[i + 1])))
}

/// The end of the run of digits that starts at `j`.
pub open spec fn digits_end(s: Seq<char>, j: int) -> int
    decreases s.len() - j,
{
    if 0 <= j < s.len() && is_digit(s[j]) {
        digits_end(s, j + 1)
    } else {
        j
    }
}

/// The end of the number that starts at `i`: sign, digits, and a decimal
/// point with the digits after it where one follows.
pub open spec fn number_end(s: Seq<char>, i: int) -> int {
    let e = digits_end(s, if s[i] == '-' { i + 1 } else { i });
    if e < s.len() && s[e] == '.' {
        digits_end(s, e + 1)
    } else {
        e
    }
}

/// The first number in `s` at or after `i`.
pub open spec fn first_number_from(s: Seq<char>, i: int) -> Option<Seq<char>>
    decreases s.len() - i,
{
    if i < 0 || i >= s.len() {
        None
    } else if number_starts_at(s, i) {
        Some(s.subrange(i, number_end(s, i)))
    } else {
        first_number_from(s, i + 1)
    }
}

/// The first number in `s`, the one that the graph takes from a line.
pub open spec fn first_number(s: Seq<char>) -> Option<Seq<char>> {
    first_number_from(s, 0)
}

/// The text of an optional string.
pub open spec fn option_view(r: Option<String>) -> Option<Seq<char>> {
    match r {
        Some(m) => Some(m@),
        None => None,
    }
}

/// Relies on regex::Regex::new, which compiles `pattern`, and on
/// regex::Regex::find, which returns the leftmost-first match of it in
/// `text`. For the number pattern on ASCII text, where `\d` is a decimal
/// digit, that match is the first number of the text.
#[verifier::external_body]
fn find_first_match(pattern: &str, text: &str) -> (r: Option<String>)
    ensures
        pattern@ == number_pattern() && is_ascii_chars(text@) ==> option_view(r) == first_number(text@),
{
    let re = regex::Regex::new(pattern).ok()?;
    re.find(text).map(|m| m.as_str().to_string())
}

/// The first number in an ASCII line.
pub fn find_number(line: &String) -> (r: Option<String>)
    requires
        is_ascii_chars(line@),
    ensures
        option_view(r) == first_number(line@),
{
    let pattern = "(\\-?\\d+\\.?[\\d]*)";
    proof {
        reveal_strlit("(\\-?\\d+\\.?[\\d]*)");
        assert(pattern@ == number_pattern());
    }
    find_first_match(pattern, line.as_str())
}

/// Whether the window slides on a new sample: the samples so far plus a
/// tenth of the window length pass the window's upper bound.
pub open spec fn slides(len: nat, window_len: nat, upper: int) -> bool {
    10 * len + window_len > 10 * upper
}

/// The samples of the live graph and the range of sample indices that its
/// x axis shows. Sample `i` is plotted at x = `i`; a sample is kept as the
/// text of the number that it was read from. The window bounds are wide
/// enough that sliding never overflows.
pub struct Grapher {
    pub data: Vec<String>,
    pub window_len: usize,
    pub window: (u128, u128),
}

impl Grapher {
    /// The window is `window_len` wide and reaches at least the newest sample.
    pub open spec fn wf(&self) -> bool {
        &&& self.window.1 == self.window.0 + self.window_len
        &&& 10 * self.window.1 + 10 >= 10 * self.data@.len() + self.window_len
        &&& self.window.1 <= self.window_len + self.data@.len()
        &&& self.data@.len() <= usize::MAX
    }

    /// The texts of the samples.
    pub open spec fn samples(&self) -> Seq<Seq<char>> {
        line_views(self.data@)
    }

    /// What one new sample `t` makes of `old`: the sample is appended, and
    /// the window slides by one where `slides` says so.
    pub open spec fn ingested(old: Grapher, new: Grapher, t: Seq<char>) -> bool {
        &&& new.samples() == old.samples().push(t)
        &&& new.window_len == old.window_len
        &&& new.window == if slides(old.data@.len(), old.window_len as nat, old.window.1 as int) {
            ((old.window.0 + 1) as u128, (old.window.1 + 1) as u128)
        } else {
            old.window
        }
    }

    /// An empty series whose window shows the indices 0 to `window_len`.
    pub fn new(window_len: usize) -> (r: Grapher)
        ensures
            r.wf(),
            r.data@.len() == 0,
            r.window_len == window_len,
            r.window == (0u128, window_len as u128),
    {
        Grapher { data: Vec::new(), window_len, window: (0, window_len as u128) }
    }

    /// Appends a sample, sliding the window forward by one where needed.
    pub fn ingest(&mut self, sample: String)
        requires
            old(self).wf(),
            old(self).data@.len() < usize::MAX,
        ensures
            final(self).wf(),
            Grapher::ingested(*old(self), *final(self), sample@),
    {
        let len = self.data.len() as u128;
        if 10 * len + self.window_len as u128 > 10 * self.window.1 {
            self.window = (self.window.0 + 1, self.window.1 + 1);
        }
        let ghost old_data = self.data@;
        self.data.push(sample);
        proof {
            assert(line_views(self.data@) == line_views(old_data).push(sample@));
        }
    }

    /// The index of the first sample that the graph shows: the last
    /// `window_len` samples are shown, or all where there are fewer.
    pub fn visible_start(&self) -> (r: usize)
        ensures
            r == self.data@.len() - visible_count(self.data@.len(), self.window_len as nat),
    {
        let len = self.data.len();
        if len > self.window_len {
            len - self.window_len
        } else {
            0
        }
    }
}

/// How many of `len` samples the graph shows with a window of `window_len`.
pub open spec fn visible_count(len: nat, window_len: nat) -> nat {
    if len < window_len {
        len
    } else {
        window_len
    }
}

/// Once the window has started to slide it slides by exactly one on every
/// further sample, its width stays `window_len`, it reaches the newest
/// sample, and at least `window_len` samples stay shown once that many
/// exist.
pub proof fn lemma_window_slides(old: Grapher, new: Grapher, t: Seq<char>)
    requires
        old.wf(),
        old.data@.len() < usize::MAX,
        Grapher::ingested(old, new, t),
    ensures
        new.wf(),
        new.window.1 - new.window.0 == old.window.1 - old.window.0,
        new.window.1 == old.window.1 || new.window.1 == old.window.1 + 1,
        slides(old.data@.len(), old.window_len as nat, old.window.1 as int) ==> new.window.1 == old.window.1 + 1
            && slides(new.data@.len(), new.window_len as nat, new.window.1 as int),
        new.data@.len() - 1 <= new.window.1,
        new.data@.len() >= new.window_len ==> visible_count(new.data@.len(), new.window_len as nat) == new.window_len,
{
    assert(new.data@.len() == new.samples().len());
    assert(old.data@.len() == old.samples().len());
}

/// The state of a console session that the event loop keeps: the lines
/// sent so far, the line being received, and the graph if there is one.
pub struct App {
    pub history: Vec<String>,
    pub cur_line: String,
    pub grapher: Option<Grapher>,
}

impl App {
    /// The line being received holds parser output, which is ASCII, and the
    /// graph keeps its own invariant.
    pub open spec fn wf(&self) -> bool {
        &&& is_ascii_chars(self.cur_line@)
        &&& (self.grapher matches Some(g) ==> g.wf())
    }

    /// A session with no history, no partial line and no graph.
    pub fn new() -> (r: App)
        ensures
            r.wf(),
            r.history@.len() == 0,
            r.cur_line@.len() == 0,
            r.grapher is None,
    {
        App { history: Vec::new(), cur_line: String::new(), grapher: None }
    }

    /// Parses a byte from the terminal device. A newline closes the current
    /// line: a new empty line is opened, and where graphing is on, the
    /// first number of the closed line becomes a sample. Any other byte
    /// adds its escaped text to the last line and to the current line.
    pub fn parse_byte(&mut self, byte: u8, wraptext: &mut WrapText<'_>)
        requires
            old(self).wf(),
            old(wraptext).lines@.len() >= 1,
            old(self).grapher matches Some(g) ==> g.data@.len() < usize::MAX,
        ensures
            final(self).wf(),
            line_views(final(wraptext).lines@) == lines_after_byte(line_views(old(wraptext).lines@), byte),
            final(self).history@ == old(self).history@,
            byte == 10 ==> final(self).cur_line@.len() == 0,
            byte == 10 ==> match old(self).grapher {
                None => final(self).grapher is None,
                Some(g) => match first_number(old(self).cur_line@) {
                    None => final(self).grapher == Some(g),
                    Some(t) => final(self).grapher matches Some(g2) && Grapher::ingested(g, g2, t),
                },
            },
            byte != 10 ==> final(self).cur_line@ == old(self).cur_line@ + as_chars(escaped(byte)),
            byte != 10 ==> final(self).grapher == old(self).grapher,
    {
        let ghost old_lines = wraptext.lines@;
        if byte == 10 {
            wraptext.lines.push(String::new());
            proof {
                assert(line_views(wraptext.lines@) == line_views(old_lines).push(Seq::<char>::empty()));
            }
            match self.grapher.take() {
                Some(mut g) => {
                    match find_number(&self.cur_line) {
                        Some(t) => g.ingest(t),
                        None => {},
                    }
                    self.grapher = Some(g);
                },
                None => {},
            }
            self.cur_line = String::new();
        } else {
            let text = escape_byte(byte);
            let n = wraptext.lines.len();
            let ghost old_cur = self.cur_line@;
            let ghost old_last = wraptext.lines@[n - 1]@;
            let mut i: usize = 0;
            while i < text.len()
                invariant
                    text@ == escaped(byte),
                    n == wraptext.lines@.len(),
                    n == old_lines.len(),
                    n >= 1,
                    self.history@ == old(self).history@,
                    0 <= i <= text.len(),
                    forall|j: int| 0 <= j < n - 1 ==> wraptext.lines@[j] == old_lines[j],
                    wraptext.lines@[n - 1]@ == old_last + as_chars(text@.take(i as int)),
                    self.cur_line@ == old_cur + as_chars(text@.take(i as int)),
                    is_ascii_chars(old_cur),
                    forall|j: int| 0 <= j < text@.len() ==> #[trigger] text@[j] < 128 || byte >= 128,
                    self.grapher == old(self).grapher,
                decreases text.len() - i,
            {
                let c = text[i] as char;
                let ghost lines_before = wraptext.lines@;
                push_char(&mut wraptext.lines[n - 1], c);
                push_char(&mut self.cur_line, c);
                proof {
                    assert(text@.take(i + 1) == text@.take(i as int).push(text@[i as int]));
                    assert(as_chars(text@.take(i + 1)) == as_chars(text@.take(i as int)).push(c));
                }
                i = i + 1;
            }
            proof {
                assert(text@.take(i as int) == text@);
                assert(line_views(wraptext.lines@) == lines_after_byte(line_views(old_lines), byte));
                assert forall|j: int| 0 <= j < self.cur_line@.len() implies '\0' <= #[trigger] self.cur_line@[j] <= '\u{7f}' by {
                    if j >= old_cur.len() {
                        let k = j - old_cur.len();
                        assert(self.cur_line@[j] == as_chars(text@)[k]);
                        assert(text@[k] < 128 || byte >= 128);
                    }
                }
            }
        }
    }
}

/// What the event loop received from the terminal, as far as the session
/// state cares.
pub enum UiEvent {
    /// The escape key.
    Escape,
    /// The enter key, with the text of the input line.
    Enter(String),
    /// The key that returns the output pane to follow mode.
    FollowKey,
    /// Any other key, meant for the input line.
    KeyInput,
    /// The mouse wheel turned up.
    ScrollUp,
    /// The mouse wheel turned down.
    ScrollDown,
    /// The terminal now has this many columns and rows.
    Resize(u16, u16),
    /// Anything else.
    Other,
}

/// What the event loop does next.
pub enum Action {
    /// End the session.
    Quit,
    /// Send these bytes to the device, clear the input line and redraw.
    Send(Vec<u8>),
    /// Hand the key to the input line and redraw.
    EditInput,
    /// Lay the screen out again for this many columns and rows and redraw.
    Resize(u16, u16),
    /// Redraw.
    Redraw,
    /// Nothing to do.
    Nothing,
}

impl App {
    /// Submits an input line: it goes to the history with a newline added,
    /// and its bytes with that newline are returned for the device.
    pub fn submit_line(&mut self, line: String) -> (r: Vec<u8>)
        ensures
            line_views(final(self).history@) == line_views(old(self).history@).push(line@.push('\n')),
            r@ == encode_utf8(line@.push('\n')),
            final(self).cur_line == old(self).cur_line,
            final(self).grapher == old(self).grapher,
    {
        let mut line = line;
        push_char(&mut line, '\n');
        let bytes = line.as_str().as_bytes();
        let mut r: Vec<u8> = Vec::new();
        let mut i: usize = 0;
        while i < bytes.len()
            invariant
                0 <= i <= bytes@.len(),
                r@ == bytes@.take(i as int),
            decreases bytes@.len() - i,
        {
            r.push(bytes[i]);
            proof {
                assert(bytes@.take(i + 1) == bytes@.take(i as int).push(bytes@[i as int]));
            }
            i = i + 1;
        }
        proof {
            assert(bytes@.take(i as int) == bytes@);
        }
        let ghost old_history = self.history@;
        self.history.push(line);
        proof {
            assert(line_views(self.history@) == line_views(old_history).push(line@));
        }
        r
    }

    /// Decides what one terminal event does to the session.
    pub fn handle_event(&mut self, event: UiEvent, state: &mut WrapTextState) -> (r: Action)
        ensures
            final(state).position == old(state).position,
            final(self).cur_line == old(self).cur_line,
            final(self).grapher == old(self).grapher,
            match event {
                UiEvent::Escape => r is Quit && *final(state) == *old(state)
                    && final(self).history == old(self).history,
                UiEvent::Enter(line) => (r matches Action::Send(bytes) && bytes@ == encode_utf8(line@.push('\n')))
                    && line_views(final(self).history@) == line_views(old(self).history@).push(line@.push('\n'))
                    && *final(state) == *old(state),
                UiEvent::FollowKey => r is Redraw
                    && final(state).movement_queue@ == old(state).movement_queue@.push(Movement::Follow)
                    && final(self).history == old(self).history,
                UiEvent::KeyInput => r is EditInput && *final(state) == *old(state)
                    && final(self).history == old(self).history,
                UiEvent::ScrollUp => r is Redraw
                    && final(state).movement_queue@ == old(state).movement_queue@.push(Movement::ScrollUp)
                    && final(self).history == old(self).history,
                UiEvent::ScrollDown => r is Redraw
                    && final(state).movement_queue@ == old(state).movement_queue@.push(Movement::ScrollDown)
                    && final(self).history == old(self).history,
                UiEvent::Resize(w, h) => r == Action::Resize(w, h) && *final(state) == *old(state)
                    && final(self).history == old(self).history,
                UiEvent::Other => r is Nothing && *final(state) == *old(state)
                    && final(self).history == old(self).history,
            },
    {
        match event {
            UiEvent::Escape => Action::Quit,
            UiEvent::Enter(line) => Action::Send(self.submit_line(line)),
            UiEvent::FollowKey => {
                state.follow();
                Action::Redraw
            },
            UiEvent::KeyInput => Action::EditInput,
            UiEvent::ScrollUp => {
                state.scroll_up();
                Action::Redraw
            },
            UiEvent::ScrollDown => {
                state.scroll_down();
                Action::Redraw
            },
            UiEvent::Resize(w, h) => Action::Resize(w, h),
            UiEvent::Other => Action::Nothing,
        }
    }
}

} // verus!
