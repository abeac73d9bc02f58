//! The line editor: one key at a time, the edited line, the cursor, a walk
//! through the history with the arrow keys and an incremental reverse
//! search (Ctrl-R), and the terminal output that each key calls for.
//!
//! The cursor is a byte position in the line, and moves by one for each
//! key, as terminal columns do for single-byte characters.
use crate::history::{matching_indices, search_history};
use crate::state::string_views;
use crate::text::{append_chars, chars_of, push_char, replace_all, replace_chars, string_of};
use vstd::prelude::*;
use vstd::utf8::{
    decode_utf8, decode_utf8_encode_utf8, encode_utf8, encode_utf8_decode_utf8,
    encode_utf8_first_scalar, encode_utf8_valid_utf8, is_ascii_chars, is_ascii_chars_encode_utf8,
    is_char_boundary, is_char_boundary_iff_not_is_continuation_byte,
    is_char_boundary_start_end_of_seq, length_of_first_scalar, valid_utf8, valid_utf8_concat,
    valid_utf8_split,
};

verus! {

broadcast use vstd::string::group_string_axioms;

/// The character that Ctrl-R produces.
pub const CONTROL_R: char = '\u{12}';

/// The number of bytes of the UTF-8 encoding of `s`.
pub open spec fn blen(s: Seq<char>) -> int {
    encode_utf8(s).len() as int
}

/// `s` with `c` inserted at byte position `b`.
pub open spec fn insert_at_byte(s: Seq<char>, b: int, c: char) -> Seq<char> {
    decode_utf8(encode_utf8(s).take(b) + encode_utf8(seq![c]) + encode_utf8(s).skip(b))
}

/// `s` without the character that starts at byte position `b`.
pub open spec fn remove_at_byte(s: Seq<char>, b: int) -> Seq<char> {
    let bytes = encode_utf8(s);
    decode_utf8(bytes.take(b) + bytes.skip(b + length_of_first_scalar(bytes.skip(b))))
}

/// The number of bytes of the string's UTF-8 encoding.
fn byte_len(s: &String) -> (n: usize)
    ensures
        n == blen(s@),
{
    s.as_str().as_bytes().len()
}

/// `String::insert`: inserts `c` at byte position `idx`, which must be a
/// character boundary; the encoding grows by that of `c`.
#[verifier::external_body]
fn insert_char(s: &mut String, idx: usize, c: char)
    requires
        is_char_boundary(encode_utf8(old(s)@), idx as int),
    ensures
        final(s)@ == insert_at_byte(old(s)@, idx as int, c),
        blen(final(s)@) == blen(old(s)@) + encode_utf8(seq![c]).len(),
{
    s.insert(idx, c)
}

/// `String::remove`: removes the character that starts at byte position
/// `idx`, which must be a character boundary before the end; the encoding
/// shrinks by that character's, and `idx` stays within it.
#[verifier::external_body]
fn remove_char(s: &mut String, idx: usize)
    requires
        idx < blen(old(s)@),
        is_char_boundary(encode_utf8(old(s)@), idx as int),
    ensures
        final(s)@ == remove_at_byte(old(s)@, idx as int),
        idx <= blen(final(s)@) < blen(old(s)@),
{
    s.remove(idx);
}

/// `String::pop`: removes the last character, if there is one.
#[verifier::external_body]
fn pop_char(s: &mut String)
    ensures
        final(s)@ == (if old(s)@.len() > 0 {
            old(s)@.drop_last()
        } else {
            old(s)@
        }),
{
    s.pop();
}

/// `s` in cyan, as the terminal shows it: between the escape sequences that
/// select and reset the colour.
pub open spec fn cyan(s: Seq<char>) -> Seq<char> {
    seq!['\x1b', '[', '3', '6', 'm'] + s + seq!['\x1b', '[', '0', 'm']
}

/// `s` highlighted: in cyan where `colors` is set, else as it is.
pub open spec fn styled_text(s: Seq<char>, colors: bool) -> Seq<char> {
    if colors {
        cyan(s)
    } else {
        s
    }
}

/// `console::Style::new().cyan().force_styling(colors).apply_to(s)`,
/// formatted: `s` between the escape sequences that select cyan and reset
/// the colour where `colors` is set, else `s` as it is.
#[verifier::external_body]
fn highlight(s: &String, colors: bool) -> (r: String)
    ensures
        r@ == styled_text(s@, colors),
{
    format!("{}", console::Style::new().cyan().force_styling(colors).apply_to(s))
}

/// Which part of the editor reads the next key.
#[derive(Clone, Copy, PartialEq, Eq, Structural)]
pub enum State {
    /// Editing the line.
    Input,
    /// Searching the history backwards.
    ReverseSearch,
    /// The line is done.
    Send,
}

/// A key that the editor reads.
#[derive(Clone, Copy, PartialEq, Eq, Structural)]
pub enum Key {
    ArrowLeft,
    ArrowRight,
    ArrowUp,
    ArrowDown,
    Enter,
    Backspace,
    Home,
    End,
    Del,
    Char(char),
    /// Any other key.
    Other,
}

/// What the editor asks of the terminal.
pub enum TermAction {
    /// Move the cursor this many columns left.
    MoveLeft(usize),
    /// Move the cursor this many columns right.
    MoveRight(usize),
    /// Clear the current line.
    ClearLine,
    /// Write this text.
    Write(String),
    /// Write this text and a line feed.
    WriteLine(String),
}

/// A terminal action, by character sequences.
pub enum ActionView {
    MoveLeft(int),
    MoveRight(int),
    ClearLine,
    Write(Seq<char>),
    WriteLine(Seq<char>),
}

impl View for TermAction {
    type V = ActionView;

    open spec fn view(&self) -> ActionView {
        match self {
            TermAction::MoveLeft(n) => ActionView::MoveLeft(*n as int),
            TermAction::MoveRight(n) => ActionView::MoveRight(*n as int),
            TermAction::ClearLine => ActionView::ClearLine,
            TermAction::Write(s) => ActionView::Write(s@),
            TermAction::WriteLine(s) => ActionView::WriteLine(s@),
        }
    }
}

/// The views of a list of actions.
pub open spec fn action_views(a: Seq<TermAction>) -> Seq<ActionView> {
    a.map_values(|t: TermAction| t@)
}

/// The state of the editor while it reads one line.
pub struct Editor {
    /// The line as edited.
    pub inp: String,
    /// The line as typed, kept while the history is shown instead.
    pub current_input: String,
    /// The text searched for.
    pub reverse_search: String,
    /// The history entries that hold it, by index.
    pub reverse_search_results: Vec<usize>,
    /// The cursor, as a byte position in the line.
    pub cursor_index: usize,
    /// The history entry shown; the number of entries for none.
    pub history_index: usize,
    /// Which of the search results is shown.
    pub reverse_search_index: usize,
    /// Which part reads the next key.
    pub state: State,
}

/// The editor's state, by character sequences.
pub struct EditorView {
    pub inp: Seq<char>,
    pub current_input: Seq<char>,
    pub reverse_search: Seq<char>,
    pub results: Seq<usize>,
    pub cursor: int,
    pub history_index: int,
    pub search_index: int,
    pub state: State,
}

impl View for Editor {
    type V = EditorView;

    open spec fn view(&self) -> EditorView {
        EditorView {
            inp: self.inp@,
            current_input: self.current_input@,
            reverse_search: self.reverse_search@,
            results: self.reverse_search_results@,
            cursor: self.cursor_index as int,
            history_index: self.history_index as int,
            search_index: self.reverse_search_index as int,
            state: self.state,
        }
    }
}

/// The prompt of the reverse search.
pub open spec fn search_prompt() -> Seq<char> {
    seq![
        '(', 'r', 'e', 'v', 'e', 'r', 's', 'e', ' ', 's', 'e', 'a', 'r', 'c', 'h', ')', ' ',
    ]
}

/// Clearing the line and writing `preset` and `text` on it.
pub open spec fn reprint(preset: Seq<char>, text: Seq<char>) -> Seq<ActionView> {
    seq![ActionView::ClearLine, ActionView::Write(preset + text)]
}

/// Moving the cursor from `cursor` to the end of `line`.
pub open spec fn to_end(cursor: int, line: Seq<char>) -> Seq<ActionView> {
    seq![ActionView::MoveLeft(cursor), ActionView::MoveRight(blen(line))]
}

/// Showing `line` in place of the edited line, the cursor at its end.
pub open spec fn show_line(m: EditorView, line: Seq<char>, preset: Seq<char>) -> (
    EditorView,
    Seq<ActionView>,
) {
    (
        EditorView { inp: line, cursor: blen(line), ..m },
        to_end(m.cursor, line) + reprint(preset, line),
    )
}

/// The effect of a key while the line is edited: the next state and what
/// the terminal is asked to do.
pub open spec fn input_step(m: EditorView, key: Key, preset: Seq<char>, hist: Seq<Seq<char>>) -> (
    EditorView,
    Seq<ActionView>,
) {
    match key {
        Key::ArrowLeft => if m.cursor > 0 {
            (EditorView { cursor: m.cursor - 1, ..m }, seq![ActionView::MoveLeft(1)])
        } else {
            (m, seq![])
        },
        Key::ArrowRight => if m.cursor < blen(m.inp) {
            (EditorView { cursor: m.cursor + 1, ..m }, seq![ActionView::MoveRight(1)])
        } else {
            (m, seq![])
        },
        Key::ArrowUp => {
            let m1 = if m.history_index == hist.len() {
                EditorView { current_input: m.inp, ..m }
            } else {
                m
            };
            if m1.history_index == 0 {
                (m1, seq![])
            } else {
                let h = m1.history_index - 1;
                show_line(EditorView { history_index: h, ..m1 }, hist[h], preset)
            }
        },
        Key::ArrowDown => {
            let h = m.history_index + 1;
            if h == hist.len() {
                show_line(EditorView { history_index: h, ..m }, m.current_input, preset)
            } else if h > hist.len() {
                (EditorView { history_index: hist.len() as int, ..m }, seq![])
            } else {
                show_line(EditorView { history_index: h, ..m }, hist[h], preset)
            }
        },
        Key::Enter => (EditorView { state: State::Send, ..m }, seq![ActionView::WriteLine(seq![])]),
        Key::Backspace => if 0 < m.cursor && m.cursor <= blen(m.inp) {
            let c = m.cursor - 1;
            let line = remove_at_byte(m.inp, c);
            (
                EditorView { inp: line, cursor: c, ..m },
                reprint(preset, line) + seq![ActionView::MoveLeft(blen(line) - c)],
            )
        } else {
            (m, seq![])
        },
        Key::Home => (EditorView { cursor: 0, ..m }, seq![ActionView::MoveLeft(m.cursor)]),
        Key::End => (EditorView { cursor: blen(m.inp), ..m }, to_end(m.cursor, m.inp)),
        Key::Del => if blen(m.inp) == m.cursor || blen(m.inp) == 0 {
            (m, seq![])
        } else {
            let line = remove_at_byte(m.inp, m.cursor);
            (
                EditorView { inp: line, ..m },
                reprint(preset, line) + seq![ActionView::MoveLeft(blen(line) - m.cursor)],
            )
        },
        Key::Char(c) => if c == CONTROL_R {
            (
                EditorView { state: State::ReverseSearch, cursor: 0, ..m },
                seq![ActionView::MoveLeft(m.cursor)] + reprint(search_prompt(), m.reverse_search),
            )
        } else {
            let line = insert_at_byte(m.inp, m.cursor, c);
            let c1 = m.cursor + 1;
            (
                EditorView { inp: line, cursor: c1, ..m },
                reprint(preset, line) + seq![ActionView::MoveLeft(blen(line) - c1)],
            )
        },
        Key::Other => (m, seq![]),
    }
}

/// The search line: the prompt and either the text searched for, if no
/// entry holds it, or the entry shown with each occurrence of the text
/// replaced by `styled`.
pub open spec fn search_display(m: EditorView, hist: Seq<Seq<char>>, styled: Seq<char>) -> Seq<
    ActionView,
> {
    let shown = if m.results.len() == 0 {
        m.reverse_search
    } else {
        replace_all(hist[m.results[m.search_index] as int], m.reverse_search, styled)
    };
    reprint(search_prompt(), shown)
}

/// The search state once the text searched for is `rs`: the entries that
/// hold it, the last of them shown.
pub open spec fn searched(m: EditorView, rs: Seq<char>, hist: Seq<Seq<char>>) -> EditorView {
    let res = matching_indices(hist, rs);
    EditorView {
        reverse_search: rs,
        results: res,
        search_index: if res.len() > 0 {
            res.len() - 1
        } else {
            m.search_index
        },
        ..m
    }
}

/// The text searched for once the reverse search takes `key`: Backspace
/// removes its last character, a character other than Ctrl-R is added.
pub open spec fn next_search_text(m: EditorView, key: Key) -> Seq<char> {
    match key {
        Key::Backspace => if m.reverse_search.len() > 0 {
            m.reverse_search.drop_last()
        } else {
            m.reverse_search
        },
        Key::Char(c) => if c == CONTROL_R {
            m.reverse_search
        } else {
            m.reverse_search.push(c)
        },
        _ => m.reverse_search,
    }
}

/// The effect of a key during the reverse search, where `styled` is the
/// highlighted text searched for: Backspace and characters change the
/// search, Ctrl-R steps to the previous result (or ends an empty search),
/// and any other key takes the entry shown as the line.
pub open spec fn search_step(
    m: EditorView,
    key: Key,
    preset: Seq<char>,
    hist: Seq<Seq<char>>,
    styled: Seq<char>,
) -> (EditorView, Seq<ActionView>) {
    match key {
        Key::Backspace => {
            let rs = if m.reverse_search.len() > 0 {
                m.reverse_search.drop_last()
            } else {
                m.reverse_search
            };
            let m2 = searched(m, rs, hist);
            (m2, search_display(m2, hist, styled))
        },
        Key::Char(c) => if c == CONTROL_R {
            if m.reverse_search.len() == 0 {
                (EditorView { state: State::Input, ..m }, reprint(preset, m.inp))
            } else {
                let m2 = EditorView { search_index: m.search_index - 1, ..m };
                (m2, search_display(m2, hist, styled))
            }
        } else {
            let m2 = searched(m, m.reverse_search.push(c), hist);
            (m2, search_display(m2, hist, styled))
        },
        _ => {
            let h = if m.results.len() == 0 {
                m.history_index
            } else {
                m.results[m.search_index] as int
            };
            let ci = if m.current_input.len() == 0 {
                m.inp
            } else {
                m.current_input
            };
            show_line(
                EditorView { state: State::Input, history_index: h, current_input: ci, ..m },
                hist[h],
                preset,
            )
        },
    }
}

/// The editor's own consistency with the history `hist`: the cursor lies
/// within the line, the history index is at most the number of entries, the
/// search results are entries, and the result shown is one of them.
pub open spec fn well_formed(m: EditorView, hist: Seq<Seq<char>>) -> bool {
    &&& 0 <= m.cursor <= blen(m.inp)
    &&& 0 <= m.history_index <= hist.len()
    &&& forall|i: int| 0 <= i < m.results.len() ==> #[trigger] m.results[i] < hist.len()
    &&& m.results.len() > 0 ==> 0 <= m.search_index < m.results.len()
    &&& 0 <= m.search_index
}

/// The keys on which the line editor does its work without failing: an
/// edit at the cursor needs the cursor on a character boundary (and so
/// within the line), and the arrow up a history index at most the number of
/// entries.
pub open spec fn input_ready(m: EditorView, key: Key, hist: Seq<Seq<char>>) -> bool {
    match key {
        Key::ArrowUp => 0 <= m.history_index <= hist.len(),
        Key::Backspace => 0 < m.cursor && m.cursor <= blen(m.inp) ==> is_char_boundary(
            encode_utf8(m.inp),
            m.cursor - 1,
        ),
        Key::Del => !(blen(m.inp) == m.cursor || blen(m.inp) == 0) ==> is_char_boundary(
            encode_utf8(m.inp),
            m.cursor,
        ),
        Key::Char(c) => c != CONTROL_R ==> is_char_boundary(encode_utf8(m.inp), m.cursor),
        _ => true,
    }
}

/// What the reverse search needs to take `key` without failing: stepping
/// back through the results needs a result before the one shown, and that
/// result an entry; taking the result shown needs it to be an entry, and
/// where there is none, the history entry shown must be one.
pub open spec fn search_ready(m: EditorView, key: Key, hist: Seq<Seq<char>>) -> bool {
    match key {
        Key::Backspace => true,
        Key::Char(c) => c == CONTROL_R && m.reverse_search.len() > 0 ==> m.search_index > 0 && (
        m.results.len() > 0 ==> m.search_index - 1 < m.results.len() && m.results[m.search_index
            - 1] < hist.len()),
        _ => if m.results.len() > 0 {
            m.search_index < m.results.len() && m.results[m.search_index] < hist.len()
        } else {
            m.history_index < hist.len()
        },
    }
}

/// The result shown is one of the results, where there are any.
pub open spec fn search_index_ok(m: EditorView) -> bool {
    m.results.len() > 0 ==> 0 <= m.search_index < m.results.len()
}

/// The keys on which the editor, as it stands, does its work without
/// failing (see `input_ready` and `search_ready`).
pub open spec fn key_ok(m: EditorView, key: Key, hist: Seq<Seq<char>>) -> bool {
    match m.state {
        State::Input => input_ready(m, key, hist),
        State::ReverseSearch => search_ready(m, key, hist),
        State::Send => true,
    }
}

/// `a` followed by `b`.
fn concat(a: &String, b: &String) -> (r: String)
    ensures
        r@ == a@ + b@,
{
    let mut v = chars_of(a.as_str());
    append_chars(&mut v, &chars_of(b.as_str()));
    string_of(&v)
}

/// Appends `a` to the actions.
fn push_action(acts: &mut Vec<TermAction>, a: TermAction)
    ensures
        action_views(final(acts)@) == action_views(old(acts)@).push(a@),
{
    acts.push(a);
    assert(action_views(acts@) =~= action_views(old(acts)@).push(a@));
}

/// Asks for the line to be cleared and `preset` and `inp` written on it.
fn reprint_line(acts: &mut Vec<TermAction>, preset: &String, inp: &String)
    ensures
        action_views(final(acts)@) == action_views(old(acts)@) + reprint(preset@, inp@),
{
    push_action(acts, TermAction::ClearLine);
    push_action(acts, TermAction::Write(concat(preset, inp)));
    assert(action_views(acts@) =~= action_views(old(acts)@) + reprint(preset@, inp@));
}

impl Editor {
    /// The editor at the start of a line: empty, in input mode, below the
    /// last history entry.
    pub fn new(history: &Vec<String>) -> (e: Editor)
        ensures
            e@ == (EditorView {
                inp: seq![],
                current_input: seq![],
                reverse_search: seq![],
                results: seq![],
                cursor: 0,
                history_index: history@.len() as int,
                search_index: 0,
                state: State::Input,
            }),
            well_formed(e@, string_views(history@)),
    {
        let e = Editor {
            inp: String::new(),
            current_input: String::new(),
            reverse_search: String::new(),
            reverse_search_results: Vec::new(),
            cursor_index: 0,
            history_index: history.len(),
            reverse_search_index: 0,
            state: State::Input,
        };
        assert(encode_utf8(e.inp@) =~= Seq::<u8>::empty());
        e
    }

    /// Moves the cursor to the start of the line.
    fn move_cursor_to_start(&mut self, acts: &mut Vec<TermAction>)
        ensures
            final(self)@ == (EditorView { cursor: 0, ..old(self)@ }),
            action_views(final(acts)@) == action_views(old(acts)@).push(
                ActionView::MoveLeft(old(self).cursor_index as int),
            ),
    {
        push_action(acts, TermAction::MoveLeft(self.cursor_index));
        self.cursor_index = 0;
    }

    /// Moves the cursor to the end of the line.
    fn move_cursor_to_end(&mut self, acts: &mut Vec<TermAction>)
        ensures
            final(self)@ == (EditorView { cursor: blen(old(self).inp@), ..old(self)@ }),
            action_views(final(acts)@) == action_views(old(acts)@) + to_end(
                old(self).cursor_index as int,
                old(self).inp@,
            ),
    {
        self.move_cursor_to_start(acts);
        self.cursor_index = byte_len(&self.inp);
        push_action(acts, TermAction::MoveRight(self.cursor_index));
        assert(action_views(acts@) =~= action_views(old(acts)@) + to_end(
            old(self).cursor_index as int,
            old(self).inp@,
        ));
    }

    /// Shows `line` in place of the edited line, the cursor at its end.
    fn show(&mut self, acts: &mut Vec<TermAction>, line: String, preset: &String)
        ensures
            ({
                let (m, a) = show_line(old(self)@, line@, preset@);
                &&& final(self)@ == m
                &&& action_views(final(acts)@) == action_views(old(acts)@) + a
            }),
    {
        self.inp = line;
        self.move_cursor_to_end(acts);
        reprint_line(acts, preset, &self.inp);
        assert(action_views(acts@) =~= action_views(old(acts)@) + show_line(
            old(self)@,
            line@,
            preset@,
        ).1);
    }

    /// One key while the line is edited (see `input_step`).
    pub fn input_mode(&mut self, key: Key, preset: &String, history: &Vec<String>) -> (acts: Vec<
        TermAction,
    >)
        requires
            input_ready(old(self)@, key, string_views(history@)),
        ensures
            (final(self)@, action_views(acts@)) == input_step(
                old(self)@,
                key,
                preset@,
                string_views(history@),
            ),
            old(self).cursor_index <= blen(old(self).inp@) ==> final(self).cursor_index <= blen(
                final(self).inp@,
            ),
            old(self).history_index <= history@.len() ==> final(self).history_index
                <= history@.len(),
            well_formed(old(self)@, string_views(history@)) ==> well_formed(
                final(self)@,
                string_views(history@),
            ),
    {
        proof {
            encode_utf8_valid_utf8(self.inp@);
        }
        let ghost hist = string_views(history@);
        let mut acts: Vec<TermAction> = Vec::new();
        assert(action_views(acts@) =~= Seq::<ActionView>::empty());
        match key {
            Key::ArrowLeft => {
                if self.cursor_index > 0 {
                    push_action(&mut acts, TermAction::MoveLeft(1));
                    self.cursor_index = self.cursor_index - 1;
                }
            },
            Key::ArrowRight => {
                if self.cursor_index < byte_len(&self.inp) {
                    push_action(&mut acts, TermAction::MoveRight(1));
                    self.cursor_index = self.cursor_index + 1;
                }
            },
            Key::ArrowUp => {
                if self.history_index == history.len() {
                    self.current_input = self.inp.clone();
                }
                if self.history_index == 0 {
                    return acts;
                }
                self.history_index = self.history_index - 1;
                let line = history[self.history_index].clone();
                assert(line@ == hist[self.history_index as int]);
                self.show(&mut acts, line, preset);
            },
            Key::ArrowDown => {
                if self.history_index >= history.len() {
                    self.history_index = history.len();
                    return acts;
                }
                self.history_index = self.history_index + 1;
                if self.history_index == history.len() {
                    let line = self.current_input.clone();
                    self.show(&mut acts, line, preset);
                } else {
                    let line = history[self.history_index].clone();
                    assert(line@ == hist[self.history_index as int]);
                    self.show(&mut acts, line, preset);
                }
            },
            Key::Enter => {
                push_action(&mut acts, TermAction::WriteLine(String::new()));
                self.state = State::Send;
                assert(action_views(acts@) =~= seq![ActionView::WriteLine(seq![])]);
                return acts;
            },
            Key::Backspace => {
                if 0 < self.cursor_index && self.cursor_index <= byte_len(&self.inp) {
                    self.cursor_index = self.cursor_index - 1;
                    remove_char(&mut self.inp, self.cursor_index);
                    reprint_line(&mut acts, preset, &self.inp);
                    let n = byte_len(&self.inp);
                    push_action(&mut acts, TermAction::MoveLeft(n - self.cursor_index));
                    assert(action_views(acts@) =~= reprint(preset@, self.inp@) + seq![
                        ActionView::MoveLeft(n - self.cursor_index),
                    ]);
                }
            },
            Key::Home => {
                let mut a2: Vec<TermAction> = Vec::new();
                self.move_cursor_to_start(&mut a2);
                assert(action_views(a2@) =~= seq![ActionView::MoveLeft(old(self).cursor_index as int)]);
                return a2;
            },
            Key::End => {
                self.move_cursor_to_end(&mut acts);
                assert(action_views(acts@) =~= to_end(old(self).cursor_index as int, old(self).inp@));
            },
            Key::Del => {
                let ln = byte_len(&self.inp);
                if ln == self.cursor_index {
                    return acts;
                }
                if ln > 0 {
                    remove_char(&mut self.inp, self.cursor_index);
                    reprint_line(&mut acts, preset, &self.inp);
                    let n = byte_len(&self.inp);
                    push_action(&mut acts, TermAction::MoveLeft(n - self.cursor_index));
                    assert(action_views(acts@) =~= reprint(preset@, self.inp@) + seq![
                        ActionView::MoveLeft(n - self.cursor_index),
                    ]);
                }
            },
            Key::Char(c) => {
                if c == CONTROL_R {
                    self.state = State::ReverseSearch;
                    self.move_cursor_to_start(&mut acts);
                    let prompt = string_of(&search_prompt_chars());
                    reprint_line(&mut acts, &prompt, &self.reverse_search);
                    assert(action_views(acts@) =~= seq![ActionView::MoveLeft(old(self).cursor_index as int)] + reprint(search_prompt(), self.reverse_search@));
                } else {
                    insert_char(&mut self.inp, self.cursor_index, c);
                    let n = byte_len(&self.inp);
                    self.cursor_index = self.cursor_index + 1;
                    reprint_line(&mut acts, preset, &self.inp);
                    push_action(&mut acts, TermAction::MoveLeft(n - self.cursor_index));
                    assert(action_views(acts@) =~= reprint(preset@, self.inp@) + seq![
                        ActionView::MoveLeft(n - self.cursor_index),
                    ]);
                }
            },
            Key::Other => {},
        }
        acts
    }
}

impl Editor {
    /// Shows the search line (see `search_display`), with `styled` the
    /// highlighted text searched for.
    fn show_search(&self, acts: &mut Vec<TermAction>, styled: &String, history: &Vec<String>)
        requires
            self.reverse_search_results@.len() > 0 ==> self.reverse_search_index
                < self.reverse_search_results@.len()
                && self.reverse_search_results@[self.reverse_search_index as int] < history@.len(),
        ensures
            action_views(final(acts)@) == action_views(old(acts)@) + search_display(
                self@,
                string_views(history@),
                styled@,
            ),
    {
        let prompt = string_of(&search_prompt_chars());
        if self.reverse_search_results.len() == 0 {
            reprint_line(acts, &prompt, &self.reverse_search);
        } else {
            let idx = self.reverse_search_results[self.reverse_search_index];
            let entry = chars_of(history[idx].as_str());
            let shown = string_of(
                &replace_chars(
                    &entry,
                    &chars_of(self.reverse_search.as_str()),
                    &chars_of(styled.as_str()),
                ),
            );
            reprint_line(acts, &prompt, &shown);
        }
    }

    /// Sets the text searched for to what it is, and searches the history
    /// for it (see `searched`).
    fn research(&mut self, history: &Vec<String>)
        ensures
            final(self)@ == searched(old(self)@, old(self).reverse_search@, string_views(history@)),
            forall|i: int|
                0 <= i < final(self).reverse_search_results@.len()
                    ==> #[trigger] final(self).reverse_search_results@[i] < history@.len(),
            search_index_ok(final(self)@),
            well_formed(old(self)@, string_views(history@)) ==> well_formed(
                final(self)@,
                string_views(history@),
            ),
    {
        self.reverse_search_results = search_history(&self.reverse_search, history);
        let n = history.len();
        proof {
            lemma_matching_indices_bound(string_views(history@), self.reverse_search@);
        }
        if self.reverse_search_results.len() > 0 {
            self.reverse_search_index = self.reverse_search_results.len() - 1;
        }
    }

    /// One key during the reverse search (see `search_step`), where
    /// `styled` is the highlighted text searched for once the key is taken
    /// (see `next_search_text`).
    pub fn search_with(
        &mut self,
        key: Key,
        preset: &String,
        history: &Vec<String>,
        styled: &String,
    ) -> (acts: Vec<TermAction>)
        requires
            search_ready(old(self)@, key, string_views(history@)),
        ensures
            (final(self)@, action_views(acts@)) == search_step(
                old(self)@,
                key,
                preset@,
                string_views(history@),
                styled@,
            ),
            final(self).reverse_search@ == next_search_text(old(self)@, key),
            search_index_ok(old(self)@) ==> search_index_ok(final(self)@),
            well_formed(old(self)@, string_views(history@)) ==> well_formed(
                final(self)@,
                string_views(history@),
            ),
    {
        let ghost hist = string_views(history@);
        let mut acts: Vec<TermAction> = Vec::new();
        assert(action_views(acts@) =~= Seq::<ActionView>::empty());
        match key {
            Key::Backspace => {
                pop_char(&mut self.reverse_search);
                self.research(history);
            },
            Key::Char(c) => {
                if c == CONTROL_R {
                    if self.reverse_search.as_str().is_empty() {
                        self.state = State::Input;
                        reprint_line(&mut acts, preset, &self.inp);
                        assert(action_views(acts@) =~= reprint(preset@, self.inp@));
                        assert(search_step(old(self)@, key, preset@, hist, styled@) == (self@, action_views(acts@)));
                        return acts;
                    }
                    self.reverse_search_index = self.reverse_search_index - 1;
                } else {
                    push_char(&mut self.reverse_search, c);
                    self.research(history);
                }
            },
            _ => {
                self.state = State::Input;
                if self.reverse_search_results.len() > 0 {
                    self.history_index = self.reverse_search_results[self.reverse_search_index];
                }
                if self.current_input.as_str().is_empty() {
                    self.current_input = self.inp.clone();
                }
                let line = history[self.history_index].clone();
                assert(line@ == hist[self.history_index as int]);
                self.show(&mut acts, line, preset);
                assert(search_step(old(self)@, key, preset@, hist, styled@) == (self@, action_views(acts@)));
                return acts;
            },
        }
        self.show_search(&mut acts, styled, history);
        assert(action_views(acts@) =~= search_display(self@, hist, styled@));
        assert(search_step(old(self)@, key, preset@, hist, styled@) == (self@, action_views(acts@)));
        acts
    }

    /// One key during the reverse search (see `search_step`); the text
    /// searched for is shown in cyan where `colors` is set (as the terminal
    /// allows colours), else plain.
    pub fn reverse_search_mode(
        &mut self,
        key: Key,
        preset: &String,
        history: &Vec<String>,
        colors: bool,
    ) -> (acts: Vec<TermAction>)
        requires
            search_ready(old(self)@, key, string_views(history@)),
        ensures
            (final(self)@, action_views(acts@)) == search_step(
                old(self)@,
                key,
                preset@,
                string_views(history@),
                styled_text(next_search_text(old(self)@, key), colors),
            ),
            search_index_ok(old(self)@) ==> search_index_ok(final(self)@),
            well_formed(old(self)@, string_views(history@)) ==> well_formed(
                final(self)@,
                string_views(history@),
            ),
    {
        let mut next = self.reverse_search.clone();
        match key {
            Key::Backspace => pop_char(&mut next),
            Key::Char(c) => {
                if c != CONTROL_R {
                    push_char(&mut next, c);
                }
            },
            _ => {},
        }
        assert(next@ == next_search_text(old(self)@, key));
        let styled = highlight(&next, colors);
        self.search_with(key, preset, history, &styled)
    }
}

impl Editor {
    /// Whether the editor can take `key` without failing (see `key_ok`).
    pub fn can_take(&self, key: Key, history: &Vec<String>) -> (b: bool)
        ensures
            b == key_ok(self@, key, string_views(history@)),
    {
        let s = self.inp.as_str();
        let n = byte_len(&self.inp);
        let res = &self.reverse_search_results;
        let rsi = self.reverse_search_index;
        match self.state {
            State::Input => match key {
                Key::ArrowUp => self.history_index <= history.len(),
                Key::Backspace => !(0 < self.cursor_index && self.cursor_index <= n)
                    || s.is_char_boundary(self.cursor_index - 1),
                Key::Del => (n == self.cursor_index || n == 0) || s.is_char_boundary(
                    self.cursor_index,
                ),
                Key::Char(c) => c == CONTROL_R || s.is_char_boundary(self.cursor_index),
                _ => true,
            },
            State::ReverseSearch => match key {
                Key::Backspace => true,
                Key::Char(c) => !(c == CONTROL_R && !self.reverse_search.as_str().is_empty()) || (
                rsi > 0 && (res.len() == 0 || (rsi - 1 < res.len() && res[rsi - 1]
                    < history.len()))),
                _ => if res.len() > 0 {
                    rsi < res.len() && res[rsi] < history.len()
                } else {
                    self.history_index < history.len()
                },
            },
            State::Send => true,
        }
    }

    /// One key, read by the part of the editor whose turn it is; nothing
    /// once the line is done. `colors` tells whether the search text is
    /// shown in colour.
    pub fn step(&mut self, key: Key, preset: &String, history: &Vec<String>, colors: bool) -> (acts:
        Vec<TermAction>)
        requires
            key_ok(old(self)@, key, string_views(history@)),
        ensures
            old(self).state == State::Input ==> (final(self)@, action_views(acts@)) == input_step(
                old(self)@,
                key,
                preset@,
                string_views(history@),
            ),
            old(self).state == State::ReverseSearch ==> (final(self)@, action_views(acts@))
                == search_step(
                old(self)@,
                key,
                preset@,
                string_views(history@),
                styled_text(next_search_text(old(self)@, key), colors),
            ),
            old(self).state == State::Send ==> final(self)@ == old(self)@ && acts@.len() == 0,
            well_formed(old(self)@, string_views(history@)) ==> well_formed(
                final(self)@,
                string_views(history@),
            ),
    {
        match self.state {
            State::Input => self.input_mode(key, preset, history),
            State::ReverseSearch => self.reverse_search_mode(key, preset, history, colors),
            State::Send => Vec::new(),
        }
    }
}

proof fn lemma_insert_bytes(s: Seq<char>, b: int, c: char)
    requires
        is_char_boundary(encode_utf8(s), b),
    ensures
        encode_utf8(insert_at_byte(s, b, c)) == encode_utf8(s).take(b) + encode_utf8(seq![c])
            + encode_utf8(s).skip(b),
        0 <= b <= encode_utf8(s).len(),
{
    let e = encode_utf8(s);
    encode_utf8_valid_utf8(s);
    encode_utf8_valid_utf8(seq![c]);
    valid_utf8_split(e, b);
    assert(e.subrange(0, b) =~= e.take(b));
    assert(e.subrange(b, e.len() as int) =~= e.skip(b));
    valid_utf8_concat(e.take(b), encode_utf8(seq![c]));
    valid_utf8_concat(e.take(b) + encode_utf8(seq![c]), e.skip(b));
    decode_utf8_encode_utf8(e.take(b) + encode_utf8(seq![c]) + e.skip(b));
}

proof fn lemma_first_scalar_of_char(c: char, rest: Seq<u8>)
    requires
        valid_utf8(rest),
    ensures
        length_of_first_scalar(encode_utf8(seq![c]) + rest) == encode_utf8(seq![c]).len(),
{
    let t = decode_utf8(rest);
    decode_utf8_encode_utf8(rest);
    let cs = seq![c] + t;
    assert(cs.drop_first() =~= t);
    assert(seq![c].drop_first() =~= Seq::<char>::empty());
    assert(encode_utf8(Seq::<char>::empty()) =~= Seq::<u8>::empty());
    assert(encode_utf8(seq![c]) =~= vstd::utf8::encode_scalar(c as u32));
    assert(encode_utf8(cs) =~= encode_utf8(seq![c]) + rest);
    encode_utf8_first_scalar(cs);
}

/// Removing the character just inserted at a character boundary gives back
/// the text.
pub proof fn lemma_remove_inserted(s: Seq<char>, b: int, c: char)
    requires
        is_char_boundary(encode_utf8(s), b),
    ensures
        remove_at_byte(insert_at_byte(s, b, c), b) == s,
        blen(insert_at_byte(s, b, c)) == blen(s) + encode_utf8(seq![c]).len(),
{
    let e = encode_utf8(s);
    lemma_insert_bytes(s, b, c);
    let bytes = encode_utf8(insert_at_byte(s, b, c));
    let cb = encode_utf8(seq![c]);
    encode_utf8_valid_utf8(s);
    valid_utf8_split(e, b);
    assert(e.subrange(b, e.len() as int) =~= e.skip(b));
    assert(bytes.skip(b) =~= cb + e.skip(b));
    lemma_first_scalar_of_char(c, e.skip(b));
    assert(bytes.take(b) + bytes.skip(b + cb.len()) =~= e);
    encode_utf8_decode_utf8(s);
}

/// Enter ends the line.
pub proof fn law_enter_ends_line(m: EditorView, preset: Seq<char>, hist: Seq<Seq<char>>)
    ensures
        input_step(m, Key::Enter, preset, hist).0.state == State::Send,
        input_step(m, Key::Enter, preset, hist).0.inp == m.inp,
{
}

/// Typing a character at the cursor and then Backspace gives back the line
/// and the cursor.
pub proof fn law_type_then_backspace(m: EditorView, c: char, preset: Seq<char>, hist: Seq<Seq<char>>)
    requires
        m.state == State::Input,
        well_formed(m, hist),
        c != CONTROL_R,
        is_char_boundary(encode_utf8(m.inp), m.cursor),
    ensures
        ({
            let m1 = input_step(m, Key::Char(c), preset, hist).0;
            let m2 = input_step(m1, Key::Backspace, preset, hist).0;
            m2.inp == m.inp && m2.cursor == m.cursor
        }),
{
    lemma_remove_inserted(m.inp, m.cursor, c);
    encode_utf8_valid_utf8(seq![c]);
    assert(encode_utf8(seq![c]).len() > 0) by {
        assert(encode_utf8(seq![c]) =~= vstd::utf8::encode_scalar(c as u32) + encode_utf8(
            seq![c].drop_first(),
        ));
    }
}

/// From the line being typed, the arrow up and then down shows the typed
/// line again, with the cursor at its end.
pub proof fn law_up_then_down_restores(m: EditorView, preset: Seq<char>, hist: Seq<Seq<char>>)
    requires
        m.state == State::Input,
        m.history_index == hist.len(),
        hist.len() > 0,
    ensures
        ({
            let m1 = input_step(m, Key::ArrowUp, preset, hist).0;
            let m2 = input_step(m1, Key::ArrowDown, preset, hist).0;
            &&& m1.inp == hist.last()
            &&& m2.inp == m.inp
            &&& m2.history_index == hist.len()
            &&& m2.cursor == blen(m.inp)
        }),
{
}

/// Ctrl-R starts a search, and Ctrl-R with nothing searched for ends it,
/// the line as it was.
pub proof fn law_search_toggles(
    m: EditorView,
    preset: Seq<char>,
    hist: Seq<Seq<char>>,
    styled: Seq<char>,
)
    requires
        m.state == State::Input,
        m.reverse_search.len() == 0,
    ensures
        ({
            let m1 = input_step(m, Key::Char(CONTROL_R), preset, hist).0;
            let m2 = search_step(m1, Key::Char(CONTROL_R), preset, hist, styled).0;
            &&& m1.state == State::ReverseSearch
            &&& m2.state == State::Input
            &&& m2.inp == m.inp
        }),
{
}

/// During a search, the entry shown holds the text searched for.
pub proof fn law_search_shows_match(
    m: EditorView,
    c: char,
    preset: Seq<char>,
    hist: Seq<Seq<char>>,
    styled: Seq<char>,
)
    requires
        m.state == State::ReverseSearch,
        hist.len() <= usize::MAX,
        c != CONTROL_R,
    ensures
        ({
            let m2 = search_step(m, Key::Char(c), preset, hist, styled).0;
            m2.results.len() > 0 ==> crate::text::contains(
                hist[m2.results[m2.search_index] as int],
                m2.reverse_search,
            )
        }),
{
    let rs = m.reverse_search.push(c);
    crate::history::law_search_exact(hist, rs);
    let res = matching_indices(hist, rs);
    if res.len() > 0 {
        let i = res[res.len() - 1] as int;
        assert(res.contains(i as usize));
    }
}

/// Every index that a search finds is that of an entry.
pub proof fn lemma_matching_indices_bound(hist: Seq<Seq<char>>, p: Seq<char>)
    requires
        hist.len() <= usize::MAX,
    ensures
        forall|i: int|
            0 <= i < matching_indices(hist, p).len() ==> #[trigger] matching_indices(hist, p)[i]
                < hist.len(),
    decreases hist.len(),
{
    if hist.len() > 0 {
        lemma_matching_indices_bound(hist.drop_last(), p);
        let prev = matching_indices(hist.drop_last(), p);
        assert forall|i: int| 0 <= i < matching_indices(hist, p).len() implies #[trigger] matching_indices(hist, p)[i] < hist.len() by {
            if i < prev.len() {
                assert(matching_indices(hist, p)[i] == prev[i]);
            }
        }
    }
}

/// The characters of the search prompt.
fn search_prompt_chars() -> (v: Vec<char>)
    ensures
        v@ == search_prompt(),
{
    let v = vec![
        '(', 'r', 'e', 'v', 'e', 'r', 's', 'e', ' ', 's', 'e', 'a', 'r', 'c', 'h', ')', ' ',
    ];
    assert(v@ =~= search_prompt());
    v
}

/// The encoding of ASCII text is one byte below 0x80 per character.
proof fn lemma_ascii_bytes(s: Seq<char>)
    requires
        is_ascii_chars(s),
    ensures
        blen(s) == s.len(),
        forall|i: int|
            0 <= i < s.len() ==> #[trigger] encode_utf8(s)[i] == s[i] as u8 && encode_utf8(s)[i]
                < 0x80,
{
    is_ascii_chars_encode_utf8(s);
    assert forall|i: int| 0 <= i < s.len() implies #[trigger] encode_utf8(s)[i] < 0x80 by {
        let u = s[i] as u32;
        assert(u <= 0x7f);
        assert((u as u8) < 0x80) by (bit_vector)
            requires
                u <= 0x7f,
        ;
        assert(s[i] as u8 == u as u8);
    }
}

/// Every byte position of ASCII text is a character boundary.
proof fn lemma_ascii_boundary(s: Seq<char>, i: int)
    requires
        is_ascii_chars(s),
        0 <= i <= blen(s),
    ensures
        is_char_boundary(encode_utf8(s), i),
{
    lemma_ascii_bytes(s);
    let e = encode_utf8(s);
    encode_utf8_valid_utf8(s);
    if i == e.len() {
        is_char_boundary_start_end_of_seq(e);
    } else {
        is_char_boundary_iff_not_is_continuation_byte(e, i);
    }
}

/// Inserting an ASCII character into ASCII text at byte `b` inserts it at
/// position `b`.
proof fn lemma_ascii_insert(s: Seq<char>, b: int, c: char)
    requires
        is_ascii_chars(s),
        c <= '\u{7f}',
        0 <= b <= s.len(),
    ensures
        insert_at_byte(s, b, c) == s.take(b).push(c) + s.skip(b),
        is_ascii_chars(insert_at_byte(s, b, c)),
{
    let x = s.take(b).push(c) + s.skip(b);
    assert forall|i: int| 0 <= i < x.len() implies '\0' <= #[trigger] x[i] <= '\u{7f}' by {
        if i < b {
            assert(x[i] == s[i]);
        } else if i > b {
            assert(x[i] == s[i - 1]);
        }
    }
    lemma_ascii_bytes(s);
    lemma_ascii_bytes(x);
    lemma_ascii_bytes(seq![c]);
    let e = encode_utf8(s);
    let y = e.take(b) + encode_utf8(seq![c]) + e.skip(b);
    assert forall|i: int| 0 <= i < x.len() implies #[trigger] encode_utf8(x)[i] == y[i] by {
        if i < b {
            assert(x[i] == s[i]);
        } else if i == b {
            assert(seq![c][0] == c);
        } else {
            assert(x[i] == s[i - 1]);
        }
    }
    assert(encode_utf8(x) =~= y);
    encode_utf8_decode_utf8(x);
}

/// Removing the character at byte `b` of ASCII text removes position `b`.
proof fn lemma_ascii_remove(s: Seq<char>, b: int)
    requires
        is_ascii_chars(s),
        0 <= b < s.len(),
    ensures
        remove_at_byte(s, b) == s.take(b) + s.skip(b + 1),
        is_ascii_chars(remove_at_byte(s, b)),
{
    let x = s.take(b) + s.skip(b + 1);
    assert forall|i: int| 0 <= i < x.len() implies '\0' <= #[trigger] x[i] <= '\u{7f}' by {
        if i < b {
            assert(x[i] == s[i]);
        } else {
            assert(x[i] == s[i + 1]);
        }
    }
    lemma_ascii_bytes(s);
    lemma_ascii_bytes(x);
    let e = encode_utf8(s);
    assert(e.skip(b)[0] == e[b]);
    assert(length_of_first_scalar(e.skip(b)) == 1);
    let y = e.take(b) + e.skip(b + 1);
    assert forall|i: int| 0 <= i < x.len() implies #[trigger] encode_utf8(x)[i] == y[i] by {
        if i < b {
            assert(x[i] == s[i]);
        } else {
            assert(x[i] == s[i + 1]);
        }
    }
    assert(encode_utf8(x) =~= y);
    encode_utf8_decode_utf8(x);
}

/// On ASCII text the line editor takes every key: with the cursor within
/// the line and the history index at most the number of entries, each key
/// can be taken; and where the line, the line as typed, the history entries
/// and a typed character are ASCII, they stay so, and the cursor and the
/// history index stay within their bounds.
pub proof fn law_ascii_line_takes_every_key(
    m: EditorView,
    key: Key,
    preset: Seq<char>,
    hist: Seq<Seq<char>>,
)
    requires
        is_ascii_chars(m.inp),
        is_ascii_chars(m.current_input),
        forall|i: int| 0 <= i < hist.len() ==> is_ascii_chars(#[trigger] hist[i]),
        key matches Key::Char(c) ==> c <= '\u{7f}',
        0 <= m.cursor <= blen(m.inp),
        0 <= m.history_index <= hist.len(),
    ensures
        input_ready(m, key, hist),
        ({
            let m2 = input_step(m, key, preset, hist).0;
            &&& is_ascii_chars(m2.inp)
            &&& is_ascii_chars(m2.current_input)
            &&& 0 <= m2.cursor <= blen(m2.inp)
            &&& 0 <= m2.history_index <= hist.len()
        }),
{
    lemma_ascii_bytes(m.inp);
    lemma_ascii_boundary(m.inp, m.cursor);
    if m.cursor > 0 {
        lemma_ascii_boundary(m.inp, m.cursor - 1);
    }
    let m2 = input_step(m, key, preset, hist).0;
    match key {
        Key::Backspace => {
            if 0 < m.cursor {
                lemma_ascii_remove(m.inp, m.cursor - 1);
                lemma_ascii_bytes(m2.inp);
            }
        },
        Key::Del => {
            if !(blen(m.inp) == m.cursor || blen(m.inp) == 0) {
                lemma_ascii_remove(m.inp, m.cursor);
                lemma_ascii_bytes(m2.inp);
            }
        },
        Key::Char(c) => {
            if c != CONTROL_R {
                lemma_ascii_insert(m.inp, m.cursor, c);
                lemma_ascii_bytes(m2.inp);
            }
        },
        _ => {},
    }
}

/// ArrowRight with the cursor before the end of the line moves the cursor
/// one position right, and changes nothing else.
pub proof fn law_arrow_right_moves_one(m: EditorView, preset: Seq<char>, hist: Seq<Seq<char>>)
    requires
        0 <= m.cursor < blen(m.inp),
    ensures
        ({
            let (m2, acts) = input_step(m, Key::ArrowRight, preset, hist);
            &&& m2.cursor == m.cursor + 1
            &&& m2.inp == m.inp
            &&& m2.history_index == m.history_index
            &&& m2.state == m.state
            &&& acts == seq![ActionView::MoveRight(1)]
        }),
{
}

/// ArrowLeft and then ArrowRight, from a cursor after the start of the
/// line, give back the editor as it was.
pub proof fn law_left_then_right_restores(m: EditorView, preset: Seq<char>, hist: Seq<Seq<char>>)
    requires
        0 < m.cursor <= blen(m.inp),
    ensures
        input_step(input_step(m, Key::ArrowLeft, preset, hist).0, Key::ArrowRight, preset, hist).0
            == m,
{
}

/// ArrowDown from history entry `i`, where entry `i + 1` exists, shows
/// entry `i + 1` with the cursor at its end.
pub proof fn law_arrow_down_shows_next(m: EditorView, preset: Seq<char>, hist: Seq<Seq<char>>)
    requires
        0 <= m.history_index,
        m.history_index + 1 < hist.len(),
    ensures
        ({
            let m2 = input_step(m, Key::ArrowDown, preset, hist).0;
            &&& m2.inp == hist[m.history_index + 1]
            &&& m2.history_index == m.history_index + 1
            &&& m2.cursor == blen(hist[m.history_index + 1])
        }),
{
}

/// From history entry `i` (not the first), ArrowUp and then ArrowDown show
/// entry `i` again.
pub proof fn law_up_then_down_shows_same_entry(
    m: EditorView,
    preset: Seq<char>,
    hist: Seq<Seq<char>>,
)
    requires
        0 < m.history_index < hist.len(),
    ensures
        ({
            let m1 = input_step(m, Key::ArrowUp, preset, hist).0;
            let m2 = input_step(m1, Key::ArrowDown, preset, hist).0;
            &&& m1.inp == hist[m.history_index - 1]
            &&& m2.inp == hist[m.history_index]
            &&& m2.history_index == m.history_index
            &&& m2.current_input == m.current_input
        }),
{
}

/// During the reverse search, Backspace removes exactly the last character
/// of a non-empty search text, and the results are then the entries that
/// hold what remains.
pub proof fn law_search_backspace_removes_last(
    m: EditorView,
    preset: Seq<char>,
    hist: Seq<Seq<char>>,
    styled: Seq<char>,
)
    requires
        m.reverse_search.len() > 0,
    ensures
        ({
            let m2 = search_step(m, Key::Backspace, preset, hist, styled).0;
            &&& m2.reverse_search.push(m.reverse_search.last()) == m.reverse_search
            &&& m2.results == matching_indices(hist, m2.reverse_search)
            &&& m2.state == m.state
            &&& next_search_text(m, Key::Backspace).push(m.reverse_search.last())
                == m.reverse_search
        }),
{
    assert(m.reverse_search.drop_last().push(m.reverse_search.last()) =~= m.reverse_search);
}

/// During the reverse search, typing a character and then Backspace give
/// back the search text and its results.
pub proof fn law_search_type_then_backspace(
    m: EditorView,
    c: char,
    preset: Seq<char>,
    hist: Seq<Seq<char>>,
    styled: Seq<char>,
)
    requires
        c != CONTROL_R,
    ensures
        ({
            let m1 = search_step(m, Key::Char(c), preset, hist, styled).0;
            let m2 = search_step(m1, Key::Backspace, preset, hist, styled).0;
            &&& m1.reverse_search == m.reverse_search.push(c)
            &&& m2.reverse_search == m.reverse_search
            &&& m2.results == matching_indices(hist, m.reverse_search)
        }),
{
    assert(m.reverse_search.push(c).drop_last() =~= m.reverse_search);
}

/// ArrowLeft moves the cursor one position left where it can, and changes
/// nothing else.
pub proof fn law_arrow_left_moves_one(m: EditorView, preset: Seq<char>, hist: Seq<Seq<char>>)
    ensures
        ({
            let (m2, acts) = input_step(m, Key::ArrowLeft, preset, hist);
            &&& m.cursor > 0 ==> m2 == EditorView { cursor: m.cursor - 1, ..m } && acts == seq![
                ActionView::MoveLeft(1),
            ]
            &&& m.cursor <= 0 ==> m2 == m && acts.len() == 0
        }),
{
}

/// Home puts the cursor at the start of the line and End at its end,
/// leaving the line as it is.
pub proof fn law_home_and_end(m: EditorView, preset: Seq<char>, hist: Seq<Seq<char>>)
    ensures
        ({
            let h = input_step(m, Key::Home, preset, hist).0;
            let e = input_step(m, Key::End, preset, hist).0;
            &&& h.cursor == 0 && h.inp == m.inp && h.history_index == m.history_index
            &&& e.cursor == blen(m.inp) && e.inp == m.inp && e.history_index == m.history_index
        }),
{
}

/// Typing a character, ArrowLeft and then Del give back the line and the
/// cursor: Del removes the character just after the cursor.
pub proof fn law_type_left_delete_restores(
    m: EditorView,
    c: char,
    preset: Seq<char>,
    hist: Seq<Seq<char>>,
)
    requires
        c != CONTROL_R,
        is_char_boundary(encode_utf8(m.inp), m.cursor),
    ensures
        ({
            let m1 = input_step(m, Key::Char(c), preset, hist).0;
            let m2 = input_step(m1, Key::ArrowLeft, preset, hist).0;
            let m3 = input_step(m2, Key::Del, preset, hist).0;
            &&& m1.inp == insert_at_byte(m.inp, m.cursor, c)
            &&& m3.inp == m.inp
            &&& m3.cursor == m.cursor
        }),
{
    lemma_remove_inserted(m.inp, m.cursor, c);
    lemma_insert_bytes(m.inp, m.cursor, c);
    encode_utf8_valid_utf8(seq![c]);
    assert(encode_utf8(seq![c]).len() > 0) by {
        assert(encode_utf8(seq![c]) =~= vstd::utf8::encode_scalar(c as u32) + encode_utf8(
            seq![c].drop_first(),
        ));
    }
}

/// During the reverse search, Ctrl-R with something searched for steps to
/// the result before the one shown, keeping the search text and results.
pub proof fn law_search_steps_back(
    m: EditorView,
    preset: Seq<char>,
    hist: Seq<Seq<char>>,
    styled: Seq<char>,
)
    requires
        m.reverse_search.len() > 0,
    ensures
        ({
            let m2 = search_step(m, Key::Char(CONTROL_R), preset, hist, styled).0;
            &&& m2.search_index == m.search_index - 1
            &&& m2.reverse_search == m.reverse_search
            &&& m2.results == m.results
            &&& m2.state == m.state
            &&& m2.inp == m.inp
        }),
{
}

/// During the reverse search, typing a character searches the history for
/// the text with that character added, and shows the last entry that holds
/// it.
pub proof fn law_search_typing_shows_latest(
    m: EditorView,
    c: char,
    preset: Seq<char>,
    hist: Seq<Seq<char>>,
    styled: Seq<char>,
)
    requires
        c != CONTROL_R,
    ensures
        ({
            let m2 = search_step(m, Key::Char(c), preset, hist, styled).0;
            &&& m2.reverse_search == m.reverse_search.push(c)
            &&& m2.results == matching_indices(hist, m.reverse_search.push(c))
            &&& m2.results.len() > 0 ==> m2.search_index == m2.results.len() - 1
            &&& m2.state == m.state
        }),
{
}

/// During the reverse search, a key other than Backspace or a character
/// ends the search and takes the entry shown (or, with no result, the
/// history entry shown) as the line, the cursor at its end.
pub proof fn law_search_takes_entry(
    m: EditorView,
    key: Key,
    preset: Seq<char>,
    hist: Seq<Seq<char>>,
    styled: Seq<char>,
)
    requires
        !(key is Backspace),
        !(key is Char),
    ensures
        ({
            let m2 = search_step(m, key, preset, hist, styled).0;
            let h = if m.results.len() > 0 {
                m.results[m.search_index] as int
            } else {
                m.history_index
            };
            &&& m2.state == State::Input
            &&& m2.history_index == h
            &&& m2.inp == hist[h]
            &&& m2.cursor == blen(hist[h])
            &&& m2.reverse_search == m.reverse_search
        }),
{
}

/// At the oldest history entry, ArrowUp stays there and changes nothing;
/// below the newest entry, ArrowDown stays below it and changes nothing
/// shown.
pub proof fn law_history_walk_stops_at_the_ends(
    m: EditorView,
    preset: Seq<char>,
    hist: Seq<Seq<char>>,
)
    ensures
        m.history_index == 0 && hist.len() > 0 ==> input_step(m, Key::ArrowUp, preset, hist) == (
        m,
        Seq::<ActionView>::empty(),
        ),
        m.history_index >= hist.len() ==> ({
            let (m2, acts) = input_step(m, Key::ArrowDown, preset, hist);
            &&& m2.history_index == hist.len()
            &&& m2.inp == m.inp
            &&& m2.cursor == m.cursor
            &&& acts.len() == 0
        }),
{
    assert(Seq::<ActionView>::empty() =~= seq![]);
}

} // verus!
