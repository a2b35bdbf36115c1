use vstd::prelude::*;

use crate::cli::CliOpt;
use crate::event::AppEvent;
use crate::event::KeyCode;
use crate::filesbuffers::lemma_store_updated;
use crate::filesbuffers::next_word_stop;
use crate::filesbuffers::prev_word_stop;
use crate::filesbuffers::BufView;
use crate::filesbuffers::FilesBuffers;
use crate::filesbuffers::Move;

verus! {

/// The editing mode.  `Visual` is declared but nothing transitions into it.
#[derive(Clone, Copy, PartialEq, Eq, Structural, Debug)]
pub enum EditorMode {
    Normal,
    Insert,
    Visual,
}

/// The hardware cursor's shape, switched on mode transitions.
#[derive(Clone, Copy, PartialEq, Eq, Structural, Debug)]
pub enum CursorType {
    Block,
    Line,
}

impl EditorMode {
    /// The mode's label, as the footer shows it.
    pub fn name(&self) -> (r: &'static str)
        ensures
            *self == EditorMode::Normal ==> r@ == "Normal"@,
            *self == EditorMode::Insert ==> r@ == "Insert"@,
            *self == EditorMode::Visual ==> r@ == "Visual"@,
    {
        match self {
            EditorMode::Normal => "Normal",
            EditorMode::Insert => "Insert",
            EditorMode::Visual => "Visual",
        }
    }
}

/// Whether `c` is a decimal digit.
pub open spec fn spec_is_ascii_digit(c: char) -> bool {
    48 <= c as u32 <= 57
}

/// Whether `c` is a decimal digit.
#[verifier::when_used_as_spec(spec_is_ascii_digit)]
pub fn is_ascii_digit(c: char) -> (r: bool)
    ensures
        r == spec_is_ascii_digit(c),
{
    let v = c as u32;
    48 <= v && v <= 57
}

/// Whether every character of `s` is a decimal digit.
pub open spec fn all_digits(s: Seq<char>) -> bool {
    forall|i: int| 0 <= i < s.len() ==> spec_is_ascii_digit(#[trigger] s[i])
}

/// The number the decimal digits `s` spell.
pub open spec fn digits_value(s: Seq<char>) -> int
    decreases s.len(),
{
    if s.len() == 0 {
        0
    } else {
        digits_value(s.drop_last()) * 10 + (s.last() as u32 - 48)
    }
}

/// The repetition count an accumulator stands for: the number its digits
/// spell, or one when it is empty, holds a non-digit, or does not fit.
pub open spec fn rep_count(s: Seq<char>) -> int {
    if s.len() > 0 && all_digits(s) && digits_value(s) <= u16::MAX {
        digits_value(s)
    } else {
        1
    }
}

/// A digit string's value only grows as more digits follow.
proof fn lemma_digits_value_grows(s: Seq<char>, i: int)
    requires
        all_digits(s),
        0 <= i <= s.len(),
    ensures
        digits_value(s) >= digits_value(s.take(i)),
        digits_value(s) >= 0,
    decreases s.len() - i,
{
    if i == s.len() {
        assert(s.take(i) =~= s);
        lemma_digits_nonneg(s);
    } else {
        lemma_digits_value_grows(s, i + 1);
        assert(s.take(i + 1).drop_last() =~= s.take(i));
        assert(s.take(i + 1).last() == s[i]);
        lemma_digits_nonneg(s.take(i));
    }
}

/// A digit string's value is never negative.
proof fn lemma_digits_nonneg(s: Seq<char>)
    requires
        all_digits(s),
    ensures
        digits_value(s) >= 0,
    decreases s.len(),
{
    if s.len() > 0 {
        assert(all_digits(s.drop_last())) by {
            assert(forall|i: int|
                0 <= i < s.len() - 1 ==> #[trigger] s.drop_last()[i] == s[i]);
        }
        lemma_digits_nonneg(s.drop_last());
    }
}

/// The repetition count pending in `reps`: its digits read as a number, with
/// one standing in for an empty, malformed or oversized accumulator.
pub fn parse_repetitions(reps: &Vec<char>) -> (n: u16)
    ensures
        n == rep_count(reps@),
{
    let len = reps.len();
    if len == 0 {
        return 1;
    }
    let mut value: u32 = 0;
    let mut i: usize = 0;
    while i < len
        invariant
            0 <= i <= len,
            len == reps@.len(),
            all_digits(reps@.take(i as int)),
            value == digits_value(reps@.take(i as int)),
            value <= 0xFFFF,
        decreases len - i,
    {
        let c = reps[i];
        let d = c as u32;
        if d < 48 || d > 57 {
            return 1;
        }
        let v2 = value * 10 + (d - 48);
        proof {
            assert(reps@.take(i + 1).drop_last() =~= reps@.take(i as int));
            assert(reps@.take(i + 1).last() == reps@[i as int]);
        }
        if v2 > 0xFFFF {
            proof {
                if all_digits(reps@) {
                    lemma_digits_value_grows(reps@, i + 1);
                }
            }
            return 1;
        }
        value = v2;
        i = i + 1;
    }
    proof {
        assert(reps@.take(len as int) =~= reps@);
    }
    value as u16
}

/// The digit a key press adds to the repetition accumulator: a digit key in
/// a non-insert mode, and nothing otherwise.
pub open spec fn accumulated_digit(mode: EditorMode, key: KeyCode) -> Option<char> {
    match key {
        KeyCode::Char(c) => if mode != EditorMode::Insert && spec_is_ascii_digit(c) {
            Some(c)
        } else {
            None
        },
        _ => None,
    }
}

/// The actions a key press queues outside the popup, in order.  One binding
/// may queue several: `a` moves right and then enters insert mode.
pub open spec fn key_actions(mode: EditorMode, key: KeyCode) -> Seq<AppEvent> {
    match key {
        KeyCode::Char(c) => if mode != EditorMode::Insert && spec_is_ascii_digit(c) {
            Seq::empty()
        } else if c == 'i' && mode == EditorMode::Normal {
            seq![AppEvent::NormalMode]
        } else if c == 'a' && mode == EditorMode::Normal {
            seq![AppEvent::MoveRight, AppEvent::NormalMode]
        } else if mode == EditorMode::Insert {
            seq![AppEvent::WriteAfterCursor(c)]
        } else if c == 'h' {
            seq![AppEvent::MoveLeft]
        } else if c == 'k' {
            seq![AppEvent::MoveUp]
        } else if c == 'l' {
            seq![AppEvent::MoveRight]
        } else if c == 'j' {
            seq![AppEvent::MoveDown]
        } else if c == 'w' {
            seq![AppEvent::MoveToNextWord]
        } else if c == 'b' {
            seq![AppEvent::MoveToPreviousWord]
        } else if c == ':' {
            seq![AppEvent::CommandPopup]
        } else {
            Seq::empty()
        },
        KeyCode::Esc => if mode == EditorMode::Insert {
            seq![AppEvent::InsertMode]
        } else if mode == EditorMode::Normal {
            seq![AppEvent::Quit]
        } else {
            Seq::empty()
        },
        KeyCode::Backspace => if mode == EditorMode::Insert {
            seq![AppEvent::DeleteBeforeCursor]
        } else {
            Seq::empty()
        },
        KeyCode::Enter => if mode == EditorMode::Insert {
            seq![AppEvent::CreateLine]
        } else {
            Seq::empty()
        },
        KeyCode::Left => if mode != EditorMode::Insert {
            seq![AppEvent::MoveLeft]
        } else {
            Seq::empty()
        },
        KeyCode::Up => if mode != EditorMode::Insert {
            seq![AppEvent::MoveUp]
        } else {
            Seq::empty()
        },
        KeyCode::Right => if mode != EditorMode::Insert {
            seq![AppEvent::MoveRight]
        } else {
            Seq::empty()
        },
        KeyCode::Down => if mode != EditorMode::Insert {
            seq![AppEvent::MoveDown]
        } else {
            Seq::empty()
        },
        KeyCode::Other => Seq::empty(),
    }
}

/// The actions a key press queues while the popup is open.
pub open spec fn command_key_actions(key: KeyCode) -> Seq<AppEvent> {
    match key {
        KeyCode::Char(c) => seq![AppEvent::WriteInCommandInput(c)],
        KeyCode::Backspace => seq![AppEvent::DeleteLastInCommandInput],
        KeyCode::Enter => seq![AppEvent::ExecuteCommand],
        _ => Seq::empty(),
    }
}

/// Whether a key press closes the popup.
pub open spec fn popup_closes(key: KeyCode) -> bool {
    key == KeyCode::Esc || key == KeyCode::Enter
}

/// Whether an action edits or moves within the active buffer, rather than
/// the editor's global state.
pub open spec fn is_buffer_event(ev: AppEvent) -> bool {
    match ev {
        AppEvent::CreateLine => true,
        AppEvent::WriteAfterCursor(_) => true,
        AppEvent::DeleteBeforeCursor => true,
        AppEvent::MoveLeft => true,
        AppEvent::MoveUp => true,
        AppEvent::MoveRight => true,
        AppEvent::MoveDown => true,
        AppEvent::MoveToNextWord => true,
        AppEvent::MoveToPreviousWord => true,
        _ => false,
    }
}

/// The column a backward word motion leaves the cursor on, over the whole
/// line: a scan from one left of the cursor where that start lies inside
/// the line, the line's start when the cursor is on column one, and no move
/// at all from column zero or from past the line's end.
pub open spec fn prev_word_col(line: Seq<char>, col: int) -> int {
    if col < 1 {
        col
    } else if col - 1 < line.len() {
        prev_word_stop(line, col - 1, false)
    } else if col == 1 {
        0
    } else {
        col
    }
}

/// What one action does to the active buffer's content.  Actions that do
/// not touch the buffer leave it as it is.
pub open spec fn buf_step(b: BufView, ev: AppEvent) -> BufView {
    match ev {
        AppEvent::CreateLine => BufView {
            lines: b.lines.insert(b.line + 1, Seq::<char>::empty()),
            line: b.line + 1,
            col: 0,
            scroll: b.scroll,
        },
        AppEvent::WriteAfterCursor(c) => BufView {
            lines: b.lines.update(b.line, b.lines[b.line].insert(b.col, c)),
            col: b.col + 1,
            ..b
        },
        AppEvent::DeleteBeforeCursor => if b.col > 0 {
            BufView {
                lines: b.lines.update(b.line, b.lines[b.line].remove(b.col - 1)),
                col: b.col - 1,
                ..b
            }
        } else if b.line > 0 {
            BufView {
                lines: b.lines.remove(b.line),
                line: b.line - 1,
                col: b.lines[b.line - 1].len() as int,
                ..b
            }
        } else {
            b
        },
        AppEvent::MoveLeft => if b.col > 0 {
            BufView { col: b.col - 1, ..b }
        } else {
            b
        },
        AppEvent::MoveUp => if b.line > 0 {
            BufView { line: b.line - 1, ..b }
        } else {
            b
        },
        AppEvent::MoveRight => if b.col < b.lines[b.line].len() {
            BufView { col: b.col + 1, ..b }
        } else {
            b
        },
        AppEvent::MoveDown => if b.line + 1 < b.lines.len() {
            BufView { line: b.line + 1, ..b }
        } else {
            b
        },
        AppEvent::MoveToNextWord => BufView {
            col: next_word_stop(b.lines[b.line], b.col, false),
            ..b
        },
        AppEvent::MoveToPreviousWord => BufView { col: prev_word_col(b.lines[b.line], b.col), ..b },
        _ => b,
    }
}

/// `buf_step` applied `n` times over.
pub open spec fn buf_step_n(b: BufView, ev: AppEvent, n: nat) -> BufView
    decreases n,
{
    if n == 0 {
        b
    } else {
        buf_step(buf_step_n(b, ev, (n - 1) as nat), ev)
    }
}

/// The popup text left after dropping its last `k` characters.
pub open spec fn drop_last_n(s: Seq<char>, k: int) -> Seq<char> {
    if k >= s.len() {
        Seq::empty()
    } else {
        s.take(s.len() - k)
    }
}

/// A document's lines joined for disk: each line's characters, a newline
/// after every line, the last included.
pub open spec fn join_nl(lines: Seq<Seq<char>>) -> Seq<char>
    decreases lines.len(),
{
    if lines.len() == 0 {
        Seq::empty()
    } else {
        lines[0] + seq!['\n'] + join_nl(lines.drop_first())
    }
}

/// A document's on-disk form: its joined lines, UTF-8 encoded.
pub open spec fn file_bytes(lines: Seq<Seq<char>>) -> Seq<u8> {
    vstd::utf8::encode_utf8(join_nl(lines))
}

/// What a save pass writes: one item per named buffer, in storage order,
/// each carrying the path and the serialized document.  Buffers under the
/// empty key are never persisted.
pub open spec fn save_items(files: Seq<(String, crate::filesbuffers::FileBuffer)>) -> Seq<
    (Seq<char>, Seq<u8>),
>
    decreases files.len(),
{
    if files.len() == 0 {
        Seq::empty()
    } else {
        let rest = save_items(files.drop_first());
        if files[0].0@.len() == 0 {
            rest
        } else {
            seq![(files[0].0@, file_bytes(files[0].1.lines()))] + rest
        }
    }
}

/// The mathematical content of a list of save items.
pub open spec fn save_views(saves: Seq<(String, Vec<u8>)>) -> Seq<(Seq<char>, Seq<u8>)> {
    Seq::new(saves.len(), |i: int| (saves[i].0@, saves[i].1@))
}

/// Whether a save pass is due: at least one second has passed.
pub open spec fn save_pass_due(last_save: i64, now: i64) -> bool {
    now - last_save >= 1
}

/// What a save pass at time `now` does to the editor and hands out: nothing
/// before a second has passed; otherwise one item per named buffer, and the
/// pass's time recorded.
pub open spec fn auto_save_post(
    pre: Editor,
    post: Editor,
    now: i64,
    saves: Seq<(Seq<char>, Seq<u8>)>,
) -> bool {
    if save_pass_due(pre.last_save, now) {
        &&& post == (Editor { last_save: now, ..pre })
        &&& saves == save_items(pre.buffers.files@)
    } else {
        &&& post == pre
        &&& saves.len() == 0
    }
}

/// A document serialized for disk: every line's characters in order, with a
/// newline appended after each line, the last included, as UTF-8 bytes.
#[verifier::loop_isolation(false)]
pub fn to_bytes(buffer: &Vec<Vec<char>>) -> (r: Vec<u8>)
    ensures
        r@ == file_bytes(crate::filesbuffers::views_of(buffer@)),
{
    let ghost all = crate::filesbuffers::views_of(buffer@);
    let mut joined: Vec<char> = Vec::new();
    let len = buffer.len();
    let mut i: usize = 0;
    proof {
        assert(all.skip(0) =~= all);
    }
    while i < len
        invariant
            i <= len,
            join_nl(all) =~= joined@ + join_nl(all.skip(i as int)),
        decreases len - i,
    {
        let ghost joined0 = joined@;
        let line: &Vec<char> = &buffer[i];
        let line_len = line.len();
        let mut k: usize = 0;
        while k < line_len
            invariant
                k <= line_len,
                joined@ =~= joined0 + all[i as int].take(k as int),
            decreases line_len - k,
        {
            joined.push(line[k]);
            k = k + 1;
            proof {
                assert(joined@ =~= joined0 + all[i as int].take(k as int));
            }
        }
        joined.push('\n');
        proof {
            assert(all.skip(i as int)[0] == all[i as int]);
            assert(all.skip(i as int).drop_first() =~= all.skip(i + 1));
            assert(all[i as int].take(line_len as int) =~= all[i as int]);
            assert(joined@ =~= joined0 + all[i as int] + seq!['\n']);
            assert(join_nl(all) =~= joined@ + join_nl(all.skip(i + 1)));
        }
        i = i + 1;
    }
    proof {
        assert(all.skip(len as int) =~= Seq::<Seq<char>>::empty());
        assert(join_nl(all) =~= joined@);
    }
    let s = collect_string(&joined);
    let bytes = vstd::slice::slice_to_vec(s.as_str().as_bytes());
    bytes
}

/// Relies on `String::from_iter` over `char`: collecting characters yields
/// the string of exactly those characters, in order.
#[verifier::external_body]
fn collect_string(chars: &Vec<char>) -> (s: String)
    ensures
        s@ == chars@,
{
    chars.iter().collect()
}

/// Relies on chrono's `Local::now` and `DateTime::timestamp`: the clock's
/// reading, as whole seconds since the Unix epoch.  Nothing is promised of
/// the value, which depends on the time of the call.
#[verifier::external_body]
fn now_seconds() -> i64 {
    chrono::Local::now().timestamp()
}

/// The command popup overlay: whether it is shown, and the command text
/// typed into it so far.
#[derive(Debug)]
pub struct CommandPopup {
    pub running: bool,
    pub input_field: Vec<char>,
}

/// The whole editor: the open buffers, the active buffer's path, the mode,
/// the pending repetition digits, the popup overlay, the queue of pending
/// actions, and the time of the last save pass.
#[derive(Debug)]
pub struct Editor {
    /// Is the application running?
    pub running: bool,
    /// Cli opts.
    pub cli_opts: CliOpt,
    /// Files buffers.
    pub buffers: FilesBuffers,
    /// Current file path.
    pub current_file_path: String,
    /// Editor mode.
    pub editor_mode: EditorMode,
    /// Repetitions buffer.
    pub repetitions: Vec<char>,
    /// Command popup.
    pub command_popup: CommandPopup,
    /// Hardware cursor shape.
    pub cursor_type: CursorType,
    /// Queue of internally generated actions, oldest first.
    pub events: Vec<AppEvent>,
    /// Seconds timestamp of the last save pass.
    pub last_save: i64,
}

/// The position of the last opening of path `k` in the startup list, or a
/// negative number when no entry carries `k`.
pub open spec fn last_occurrence(resolved: Seq<(String, Option<Vec<char>>)>, k: Seq<char>) -> int
    decreases resolved.len(),
{
    if resolved.len() == 0 {
        -1
    } else if resolved.last().0@ == k {
        resolved.len() - 1
    } else {
        last_occurrence(resolved.drop_last(), k)
    }
}

/// An entry carrying `k` bounds `k`'s last occurrence from below.
proof fn lemma_last_occurrence_present(
    resolved: Seq<(String, Option<Vec<char>>)>,
    k: Seq<char>,
    i: int,
)
    requires
        0 <= i < resolved.len(),
        resolved[i].0@ == k,
    ensures
        i <= last_occurrence(resolved, k) < resolved.len(),
    decreases resolved.len(),
{
    if resolved.last().0@ == k {
    } else {
        assert(i < resolved.len() - 1);
        assert(resolved.drop_last()[i] == resolved[i]);
        lemma_last_occurrence_present(resolved.drop_last(), k, i);
    }
}

impl Editor {
    /// Well-formedness: the store is sound and the active path resolves.
    pub open spec fn wf(self) -> bool {
        &&& self.buffers.wf()
        &&& self.buffers.contains_key(self.current_file_path@)
    }

    /// The active buffer's mathematical content.
    pub open spec fn active_buf(self) -> BufView {
        self.buffers.spec_get(self.current_file_path@)@
    }

    /// Build the editor over the startup files: one buffer per resolved
    /// path, opened in order with later openings of a path replacing earlier
    /// ones; the first path active; a single unnamed scratch buffer when no
    /// path was given; normal mode, a block cursor, and empty accumulator,
    /// popup and queue.  `resolved` carries each path with the text read for
    /// it, `None` where nothing could be read; `now` is the clock's reading
    /// at startup.
    #[verifier::loop_isolation(false)]
    pub fn new(cli_opts: CliOpt, resolved: Vec<(String, Option<Vec<char>>)>, now: i64) -> (r:
        Editor)
        requires
            forall|i: int|
                0 <= i < resolved@.len() ==> crate::filesbuffers::valid_content(
                    #[trigger] resolved@[i].1,
                ),
        ensures
            r.wf(),
            r.running == true,
            r.editor_mode == EditorMode::Normal,
            r.cursor_type == CursorType::Block,
            r.repetitions@ == Seq::<char>::empty(),
            r.command_popup.running == false,
            r.command_popup.input_field@ == Seq::<char>::empty(),
            r.events@ == Seq::<AppEvent>::empty(),
            r.last_save == now,
            r.cli_opts == cli_opts,
            resolved@.len() == 0 ==> r.current_file_path@ == Seq::<char>::empty()
                && r.buffers.files@.len() == 1 && r.buffers.contains_key(Seq::<char>::empty())
                && crate::filesbuffers::fresh_buffer(
                r.buffers.spec_get(Seq::<char>::empty()),
                Option::None,
            ),
            resolved@.len() > 0 ==> r.current_file_path@ == resolved@[0].0@ && (forall|k: Seq<char>|
                r.buffers.contains_key(k) <==> last_occurrence(resolved@, k) >= 0) && (forall|
                k: Seq<char>,
            |
                last_occurrence(resolved@, k) >= 0 ==> crate::filesbuffers::fresh_buffer(
                    r.buffers.spec_get(k),
                    resolved@[last_occurrence(resolved@, k)].1,
                )),
    {
        let ghost all = resolved@;
        let mut resolved = resolved;
        let n0 = resolved.len();
        proof {
            assert(all.len() == n0);
        }
        let mut current_file_path = String::new();
        let mut buffers = FilesBuffers::new();
        let mut i: usize = 0;
        proof {
            assert(all.skip(0) =~= all);
            assert(all.take(0) =~= Seq::<(String, Option<Vec<char>>)>::empty());
        }
        while resolved.len() > 0
            invariant
                i <= all.len(),
                all.len() <= usize::MAX,
                resolved@ =~= all.skip(i as int),
                buffers.wf(),
                i == 0 ==> current_file_path@ == Seq::<char>::empty(),
                i >= 1 ==> current_file_path@ == all[0].0@,
                forall|k: Seq<char>|
                    buffers.contains_key(k) <==> last_occurrence(all.take(i as int), k) >= 0,
                forall|k: Seq<char>|
                    last_occurrence(all.take(i as int), k) >= 0
                        ==> crate::filesbuffers::fresh_buffer(
                        buffers.spec_get(k),
                        all[last_occurrence(all.take(i as int), k)].1,
                    ),
            decreases resolved@.len(),
        {
            let entry = resolved.remove(0);
            let (path, content) = entry;
            proof {
                assert(all.skip(i as int)[0] == all[i as int]);
                assert(resolved@ =~= all.skip(i + 1));
            }
            if i == 0 {
                current_file_path = path.clone();
            }
            let ghost pre = buffers;
            buffers.init_file_buffer(path, content);
            proof {
                assert(all.take(i + 1).drop_last() =~= all.take(i as int));
                assert(all.take(i + 1).last() == all[i as int]);
                assert forall|k: Seq<char>|
                    buffers.contains_key(k) <==> last_occurrence(all.take(i + 1), k) >= 0 by {
                    if k == all[i as int].0@ {
                        assert(last_occurrence(all.take(i + 1), k) == i);
                    } else {
                        assert(last_occurrence(all.take(i + 1), k) == last_occurrence(
                            all.take(i as int),
                            k,
                        ));
                    }
                }
                assert forall|k: Seq<char>|
                    last_occurrence(all.take(i + 1), k) >= 0 implies crate::filesbuffers::fresh_buffer(
                    buffers.spec_get(k),
                    all[last_occurrence(all.take(i + 1), k)].1,
                ) by {
                    if k == all[i as int].0@ {
                        assert(last_occurrence(all.take(i + 1), k) == i);
                    } else {
                        assert(last_occurrence(all.take(i + 1), k) == last_occurrence(
                            all.take(i as int),
                            k,
                        ));
                        assert(buffers.spec_get(k) == pre.spec_get(k));
                    }
                }
            }
            i = i + 1;
        }
        proof {
            assert(all.take(all.len() as int) =~= all);
            if all.len() > 0 {
                lemma_last_occurrence_present(all, all[0].0@, 0);
                assert(buffers.contains_key(all[0].0@));
                assert(buffers.files@.len() > 0);
            } else {
                if buffers.files@.len() > 0 {
                    assert(buffers.contains_key(buffers.files@[0].0@));
                    assert(false);
                }
                assert(buffers.files@.len() == 0);
            }
        }
        if buffers.is_empty() {
            let scratch_key = String::new();
            proof {
                assert(scratch_key@ == Seq::<char>::empty());
            }
            buffers.init_file_buffer(scratch_key, Option::None);
        }
        proof {
            assert(buffers.wf());
            if all.len() == 0 {
                assert(current_file_path@ == Seq::<char>::empty());
                assert(buffers.contains_key(Seq::<char>::empty()));
            } else {
                assert(current_file_path@ == all[0].0@);
                assert(buffers.contains_key(all[0].0@));
            }
        }
        Editor {
            running: true,
            cli_opts,
            buffers,
            current_file_path,
            editor_mode: EditorMode::Normal,
            repetitions: Vec::new(),
            command_popup: CommandPopup { running: false, input_field: Vec::new() },
            cursor_type: CursorType::Block,
            events: Vec::new(),
            last_save: now,
        }
    }

    /// Handles the tick event: there is no periodic work.
    pub fn tick(&self) {
    }

    /// Append one action to the queue.
    fn send(&mut self, event: AppEvent)
        ensures
            *final(self) == (Editor { events: final(self).events, ..*old(self) }),
            final(self).events@ == old(self).events@.push(event),
    {
        self.events.push(event);
    }

    /// Take the oldest queued action, if any.
    pub fn pop_event(&mut self) -> (r: Option<AppEvent>)
        ensures
            old(self).events@.len() == 0 ==> r is None && *final(self) == *old(self),
            old(self).events@.len() > 0 ==> r == Some(old(self).events@[0]) && *final(self)
                == (Editor { events: final(self).events, ..*old(self) }) && final(self).events@
                == old(self).events@.drop_first(),
    {
        if self.events.is_empty() {
            None
        } else {
            let ev = self.events.remove(0);
            proof {
                assert(self.events@ =~= old(self).events@.drop_first());
            }
            Some(ev)
        }
    }

    /// Dispatch one key press outside the popup.  A digit key in a non-insert
    /// mode only grows the repetition accumulator; every other binding queues
    /// its actions, as `key_actions` lays them out.
    pub fn handle_key_events(&mut self, key_event: KeyCode)
        ensures
            final(self).events@ == old(self).events@ + key_actions(
                old(self).editor_mode,
                key_event,
            ),
            final(self).repetitions@ == match accumulated_digit(old(self).editor_mode, key_event) {
                Some(d) => old(self).repetitions@.push(d),
                None => old(self).repetitions@,
            },
            *final(self) == (Editor {
                events: final(self).events,
                repetitions: final(self).repetitions,
                ..*old(self)
            }),
    {
        match key_event {
            KeyCode::Char(input) => {
                if !matches!(self.editor_mode, EditorMode::Insert) && is_ascii_digit(input) {
                    // Not queued as an action, so that repetitions settle
                    // while actions are processed.
                    self.repetitions.push(input);
                } else if input == 'i' && matches!(self.editor_mode, EditorMode::Normal) {
                    self.send(AppEvent::NormalMode);
                } else if input == 'a' && matches!(self.editor_mode, EditorMode::Normal) {
                    self.send(AppEvent::MoveRight);
                    self.send(AppEvent::NormalMode);
                } else if matches!(self.editor_mode, EditorMode::Insert) {
                    self.send(AppEvent::WriteAfterCursor(input));
                } else if input == 'h' {
                    self.send(AppEvent::MoveLeft);
                } else if input == 'k' {
                    self.send(AppEvent::MoveUp);
                } else if input == 'l' {
                    self.send(AppEvent::MoveRight);
                } else if input == 'j' {
                    self.send(AppEvent::MoveDown);
                } else if input == 'w' {
                    self.send(AppEvent::MoveToNextWord);
                } else if input == 'b' {
                    self.send(AppEvent::MoveToPreviousWord);
                } else if input == ':' {
                    self.send(AppEvent::CommandPopup);
                }
            },
            KeyCode::Esc => {
                if matches!(self.editor_mode, EditorMode::Insert) {
                    self.send(AppEvent::InsertMode);
                } else if matches!(self.editor_mode, EditorMode::Normal) {
                    self.send(AppEvent::Quit);
                }
            },
            KeyCode::Backspace => {
                if matches!(self.editor_mode, EditorMode::Insert) {
                    self.send(AppEvent::DeleteBeforeCursor);
                }
            },
            KeyCode::Enter => {
                if matches!(self.editor_mode, EditorMode::Insert) {
                    self.send(AppEvent::CreateLine);
                }
            },
            KeyCode::Left => {
                if !matches!(self.editor_mode, EditorMode::Insert) {
                    self.send(AppEvent::MoveLeft);
                }
            },
            KeyCode::Up => {
                if !matches!(self.editor_mode, EditorMode::Insert) {
                    self.send(AppEvent::MoveUp);
                }
            },
            KeyCode::Right => {
                if !matches!(self.editor_mode, EditorMode::Insert) {
                    self.send(AppEvent::MoveRight);
                }
            },
            KeyCode::Down => {
                if !matches!(self.editor_mode, EditorMode::Insert) {
                    self.send(AppEvent::MoveDown);
                }
            },
            KeyCode::Other => {
            },
        }
        proof {
            assert(self.events@ =~= old(self).events@ + key_actions(
                old(self).editor_mode,
                key_event,
            ));
        }
    }

    /// Dispatch one key press while the command popup is open: characters
    /// and Backspace queue edits of the popup's text, Enter submits and
    /// closes the popup, Escape closes it discarding the text.
    pub fn handle_command_key_events(&mut self, key_event: KeyCode)
        ensures
            final(self).events@ == old(self).events@ + command_key_actions(key_event),
            final(self).command_popup.running == (if popup_closes(key_event) {
                false
            } else {
                old(self).command_popup.running
            }),
            final(self).command_popup.input_field@ == (if popup_closes(key_event) {
                Seq::<char>::empty()
            } else {
                old(self).command_popup.input_field@
            }),
            *final(self) == (Editor {
                events: final(self).events,
                command_popup: final(self).command_popup,
                ..*old(self)
            }),
    {
        match key_event {
            KeyCode::Esc => {
                self.exit_popup();
            },
            KeyCode::Char(input) => {
                self.send(AppEvent::WriteInCommandInput(input));
            },
            KeyCode::Backspace => {
                self.send(AppEvent::DeleteLastInCommandInput);
            },
            KeyCode::Enter => {
                self.send(AppEvent::ExecuteCommand);
                self.exit_popup();
            },
            _ => {
            },
        }
        proof {
            assert(self.events@ =~= old(self).events@ + command_key_actions(key_event));
        }
    }

    /// Apply one dequeued action, scaled by the pending repetition count:
    /// the accumulator is read and cleared, and the action's effect is
    /// repeated that many times on the active buffer or the global state.
    #[verifier::loop_isolation(false)]
    pub fn process_app_event(&mut self, event: AppEvent)
        requires
            old(self).wf(),
            event matches AppEvent::CreateLine ==> old(self).active_buf().lines.len() + rep_count(
                old(self).repetitions@,
            ) <= u16::MAX,
            event matches AppEvent::WriteAfterCursor(c) ==> ({
                let b = old(self).active_buf();
                b.col <= b.lines[b.line].len() && b.lines[b.line].len() + rep_count(
                    old(self).repetitions@,
                ) <= u16::MAX
            }),
            event matches AppEvent::DeleteBeforeCursor ==> ({
                let b = old(self).active_buf();
                b.col > 0 ==> b.col <= b.lines[b.line].len()
            }),
        ensures
            final(self).wf(),
            final(self).repetitions@ == Seq::<char>::empty(),
            is_buffer_event(event) ==> ({
                let n = rep_count(old(self).repetitions@);
                &&& *final(self) == (Editor {
                    repetitions: final(self).repetitions,
                    buffers: final(self).buffers,
                    ..*old(self)
                })
                &&& final(self).active_buf() == buf_step_n(old(self).active_buf(), event, n as nat)
                &&& forall|k: Seq<char>|
                    final(self).buffers.contains_key(k) <==> old(self).buffers.contains_key(k)
                &&& forall|k: Seq<char>|
                    k != old(self).current_file_path@ && old(self).buffers.contains_key(k)
                        ==> final(self).buffers.spec_get(k) == old(self).buffers.spec_get(k)
            }),
            !is_buffer_event(event) ==> ({
                let n = rep_count(old(self).repetitions@);
                &&& *final(self) == (Editor {
                    repetitions: final(self).repetitions,
                    running: final(self).running,
                    editor_mode: final(self).editor_mode,
                    cursor_type: final(self).cursor_type,
                    command_popup: final(self).command_popup,
                    ..*old(self)
                })
                &&& final(self).running == (if event == AppEvent::Quit && n > 0 {
                    false
                } else {
                    old(self).running
                })
                &&& final(self).editor_mode == (if event == AppEvent::NormalMode && n > 0 {
                    EditorMode::Insert
                } else if event == AppEvent::InsertMode && n > 0 {
                    EditorMode::Normal
                } else {
                    old(self).editor_mode
                })
                &&& final(self).cursor_type == (if event == AppEvent::NormalMode && n > 0 {
                    CursorType::Line
                } else if event == AppEvent::InsertMode && n > 0 {
                    CursorType::Block
                } else {
                    old(self).cursor_type
                })
                &&& final(self).command_popup.running == (if event == AppEvent::CommandPopup && n
                    > 0 {
                    true
                } else {
                    old(self).command_popup.running
                })
                &&& final(self).command_popup.input_field@ == (match event {
                    AppEvent::WriteInCommandInput(c) => old(self).command_popup.input_field@
                        + Seq::new(n as nat, |i: int| c),
                    AppEvent::DeleteLastInCommandInput => drop_last_n(
                        old(self).command_popup.input_field@,
                        n,
                    ),
                    _ => old(self).command_popup.input_field@,
                })
            }),
    {
        let n = parse_repetitions(&self.repetitions);
        self.repetitions = Vec::new();
        match event {
            AppEvent::Quit => {
                if n > 0 {
                    self.running = false;
                }
            },
            AppEvent::NormalMode => {
                if n > 0 {
                    self.editor_mode = EditorMode::Insert;
                    self.cursor_type = CursorType::Line;
                }
            },
            AppEvent::InsertMode => {
                if n > 0 {
                    self.editor_mode = EditorMode::Normal;
                    self.cursor_type = CursorType::Block;
                }
            },
            AppEvent::CommandPopup => {
                if n > 0 {
                    self.command_popup.running = true;
                }
            },
            AppEvent::WriteInCommandInput(input) => {
                let mut i: u16 = 0;
                while i < n
                    invariant
                        i <= n,
                        self.command_popup.input_field@ == old(self).command_popup.input_field@
                            + Seq::new(i as nat, |j: int| input),
                        *self == (Editor {
                            repetitions: self.repetitions,
                            command_popup: self.command_popup,
                            ..*old(self)
                        }),
                        self.command_popup.running == old(self).command_popup.running,
                        self.repetitions@ == Seq::<char>::empty(),
                    decreases n - i,
                {
                    self.command_popup.input_field.push(input);
                    i = i + 1;
                    proof {
                        assert(self.command_popup.input_field@ =~= old(
                            self,
                        ).command_popup.input_field@ + Seq::new(i as nat, |j: int| input));
                    }
                }
            },
            AppEvent::DeleteLastInCommandInput => {
                let mut i: u16 = 0;
                while i < n
                    invariant
                        i <= n,
                        self.command_popup.input_field@ == drop_last_n(
                            old(self).command_popup.input_field@,
                            i as int,
                        ),
                        *self == (Editor {
                            repetitions: self.repetitions,
                            command_popup: self.command_popup,
                            ..*old(self)
                        }),
                        self.command_popup.running == old(self).command_popup.running,
                        self.repetitions@ == Seq::<char>::empty(),
                    decreases n - i,
                {
                    if !self.command_popup.input_field.is_empty() {
                        self.command_popup.input_field.pop();
                    }
                    i = i + 1;
                    proof {
                        assert(self.command_popup.input_field@ =~= drop_last_n(
                            old(self).command_popup.input_field@,
                            i as int,
                        ));
                    }
                }
            },
            AppEvent::ExecuteCommand => {
            },
            AppEvent::CreateLine
            | AppEvent::WriteAfterCursor(_)
            | AppEvent::DeleteBeforeCursor
            | AppEvent::MoveLeft
            | AppEvent::MoveUp
            | AppEvent::MoveRight
            | AppEvent::MoveDown
            | AppEvent::MoveToNextWord
            | AppEvent::MoveToPreviousWord => {
                let ghost pre_buffers = self.buffers;
                let key = self.current_file_path.clone();
                let file_buffer = self.buffers.get_mut(key);
                let ghost v0 = file_buffer@;
                let mut i: u16 = 0;
                while i < n
                    invariant
                        i <= n,
                        file_buffer.wf(),
                        file_buffer@ == buf_step_n(v0, event, i as nat),
                        event matches AppEvent::CreateLine ==> file_buffer@.lines.len()
                            == v0.lines.len() + i,
                        event matches AppEvent::WriteAfterCursor(_) ==> file_buffer@.col == v0.col
                            + i && file_buffer@.line == v0.line
                            && file_buffer@.lines[file_buffer@.line].len()
                            == v0.lines[v0.line].len() + i && file_buffer@.col
                            <= file_buffer@.lines[file_buffer@.line].len(),
                        event matches AppEvent::DeleteBeforeCursor ==> (file_buffer@.col > 0
                            ==> file_buffer@.col <= file_buffer@.lines[file_buffer@.line].len()),
                    decreases n - i,
                {
                    let ghost prev = file_buffer@;
                    match event {
                        AppEvent::CreateLine => file_buffer.create_line(),
                        AppEvent::WriteAfterCursor(input) => file_buffer.insert_char(input),
                        AppEvent::DeleteBeforeCursor => file_buffer.delete_previous_position(),
                        AppEvent::MoveLeft => file_buffer.move_cursor(Move::Left),
                        AppEvent::MoveUp => file_buffer.move_cursor(Move::Up),
                        AppEvent::MoveRight => file_buffer.move_cursor(Move::Right),
                        AppEvent::MoveDown => file_buffer.move_cursor(Move::Down),
                        AppEvent::MoveToNextWord => file_buffer.move_to_next_word(),
                        AppEvent::MoveToPreviousWord => file_buffer.move_to_previous_word(),
                        _ => {
                        },
                    }
                    i = i + 1;
                    proof {
                        assert(file_buffer@ =~= buf_step(prev, event));
                    }
                }
                let ghost fbv = *file_buffer;
                proof {
                    lemma_store_updated(
                        pre_buffers,
                        self.buffers,
                        old(self).current_file_path@,
                        fbv,
                    );
                }
            },
        }
    }

    /// Run a save pass against the given clock reading: a no-op before one
    /// second has passed since the last pass; otherwise one serialized item
    /// per named buffer, in storage order, for the caller to write out, and
    /// the pass's time recorded.
    #[verifier::loop_isolation(false)]
    pub fn auto_save_at(&mut self, now: i64) -> (saves: Vec<(String, Vec<u8>)>)
        ensures
            auto_save_post(*old(self), *final(self), now, save_views(saves@)),
    {
        let mut saves: Vec<(String, Vec<u8>)> = Vec::new();
        if (now as i128) - (self.last_save as i128) < 1 {
            return saves;
        }
        let ghost all = self.buffers.files@;
        let len = self.buffers.files.len();
        let mut i: usize = 0;
        proof {
            assert(all.skip(0) =~= all);
        }
        while i < len
            invariant
                i <= len,
                *self == *old(self),
                save_items(all) =~= save_views(saves@) + save_items(all.skip(i as int)),
            decreases len - i,
        {
            proof {
                assert(all.skip(i as int)[0] == all[i as int]);
                assert(all.skip(i as int).drop_first() =~= all.skip(i + 1));
            }
            let path_is_empty = self.buffers.files[i].0.as_str().is_empty();
            if !path_is_empty {
                let path = self.buffers.files[i].0.clone();
                let bytes = to_bytes(&self.buffers.files[i].1.file);
                proof {
                    assert(crate::filesbuffers::views_of(self.buffers.files@[i as int].1.file@)
                        =~= self.buffers.files@[i as int].1.lines());
                }
                saves.push((path, bytes));
                proof {
                    assert(save_views(saves@) =~= save_views(saves@.drop_last()) + seq![
                        (all[i as int].0@, file_bytes(all[i as int].1.lines())),
                    ]);
                }
            }
            i = i + 1;
            proof {
                assert(save_items(all) =~= save_views(saves@) + save_items(all.skip(i as int)));
            }
        }
        proof {
            assert(all.skip(len as int) =~= Seq::<(String, crate::filesbuffers::FileBuffer)>::empty());
            assert(save_views(saves@) =~= save_items(all));
        }
        self.last_save = now;
        saves
    }

    /// Run a save pass against the clock: the time is read, and the pass at
    /// that reading is performed.  What the clock returned is not known
    /// here, so the pass's effect is promised for some reading.
    pub fn auto_save(&mut self) -> (saves: Vec<(String, Vec<u8>)>)
        ensures
            exists|now: i64|
                auto_save_post(*old(self), *final(self), now, save_views(saves@)),
    {
        let now = now_seconds();
        let saves = self.auto_save_at(now);
        proof {
            assert(auto_save_post(*old(self), *self, now, save_views(saves@)));
        }
        saves
    }

    /// Close the command popup, discarding its text.
    fn exit_popup(&mut self)
        ensures
            *final(self) == (Editor { command_popup: final(self).command_popup, ..*old(self) }),
            final(self).command_popup.running == false,
            final(self).command_popup.input_field@ == Seq::<char>::empty(),
    {
        self.command_popup.running = false;
        self.command_popup.input_field = Vec::new();
    }
}

} // verus!
