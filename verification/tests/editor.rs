use miv::action::Action;
use miv::keys::{Key, KeyCode};
use miv::mode::ModeType;
use miv::point::Direction;
use miv::state::{IoRequest, MicroState, State, Status};

fn cv(s: &str) -> Vec<char> {
    s.chars().collect()
}

fn k(c: char) -> Key {
    Key::new(KeyCode::Char(c))
}

fn press(ed: &mut State, s: &str) -> bool {
    let mut quit = false;
    for c in s.chars() {
        quit = ed.handle_key(k(c));
    }
    quit
}

fn code(ed: &mut State, kc: KeyCode) -> bool {
    ed.handle_key(Key::new(kc))
}

fn line(ed: &State, y: usize) -> Vec<char> {
    ed.active_buffer().data[y].clone()
}

#[test]
fn insert_mode_types_text() {
    // buffer [""], Normal mode, 'i' then "hi": Insert mode, line 0 "hi",
    // cursor column 2
    let mut ed = State::new();
    press(&mut ed, "ihi");
    assert_eq!(ed.mode.mode_type(), ModeType::Insert);
    assert_eq!(line(&ed, 0), cv("hi\n"));
    assert_eq!(ed.cursor.x, 2);
    assert_eq!(ed.cursor.y, 0);
}

#[test]
fn delete_line_removes_and_yanks() {
    // buffer ["ab","cd"], cursor (0,0), "dd": "ab" removed onto the yank
    // front, buffer ["cd"], cursor (0,0)
    let mut ed = State::new();
    ed.finish_load(&cv("ab\ncd"));
    press(&mut ed, "dd");
    assert_eq!(ed.active_buffer().line_len(), 1);
    assert_eq!(line(&ed, 0), cv("cd\n"));
    assert_eq!(ed.yanked_front().unwrap(), &cv("ab\n"));
    assert_eq!(ed.cursor.x, 0);
    assert_eq!(ed.cursor.y, 0);
}

#[test]
fn yank_then_paste_is_linewise() {
    // buffer ["ab"], "yy" leaves the line and yanks it, 'p' pastes a new
    // line below: ["ab","ab"]
    let mut ed = State::new();
    ed.finish_load(&cv("ab"));
    press(&mut ed, "yy");
    assert_eq!(line(&ed, 0), cv("ab\n"));
    assert_eq!(ed.yanked_front().unwrap(), &cv("ab\n"));
    press(&mut ed, "p");
    assert_eq!(ed.active_buffer().line_len(), 2);
    assert_eq!(line(&ed, 0), cv("ab\n"));
    assert_eq!(line(&ed, 1), cv("ab\n"));
}

#[test]
fn count_repeats_motion() {
    // Normal mode, '2' then 'l': the cursor moves right exactly twice
    let mut ed = State::new();
    ed.finish_load(&cv("abcdef"));
    press(&mut ed, "2l");
    assert_eq!(ed.cursor.x, 2);
}

#[test]
fn write_quit_command_saves_then_quits() {
    // minibuffer ":wq" with a bound file path: a write of the buffer is
    // queued (the driver reports the byte count) and handle_key returns true
    let mut ed = State::new();
    press(&mut ed, ":e f.txt");
    code(&mut ed, KeyCode::Enter);
    let reqs = ed.take_io_requests();
    assert_eq!(reqs.len(), 1);
    assert_eq!(reqs[0], IoRequest::Read { path: cv("f.txt") });
    ed.finish_load(&cv("hello\n"));
    assert_eq!(line(&ed, 0), cv("hello\n"));

    let quit = press(&mut ed, ":wq");
    assert!(!quit);
    let quit = code(&mut ed, KeyCode::Enter);
    assert!(quit);
    let reqs = ed.take_io_requests();
    assert_eq!(reqs.len(), 1);
    assert_eq!(
        reqs[0],
        IoRequest::Write { path: cv("f.txt"), content: cv("hello\n") },
    );
    ed.report_saved(cv("f.txt"), 6);
    assert_eq!(ed.status, Some(Status::Saved { path: cv("f.txt"), bytes: 6 }));
}

#[test]
fn up_at_first_row_stays() {
    let mut ed = State::new();
    ed.finish_load(&cv("ab\ncd"));
    code(&mut ed, KeyCode::Up);
    assert_eq!(ed.cursor.y, 0);
}

#[test]
fn left_at_first_column_stays() {
    let mut ed = State::new();
    ed.finish_load(&cv("ab"));
    code(&mut ed, KeyCode::Left);
    assert_eq!(ed.cursor.x, 0);
}

#[test]
fn end_of_file_lands_on_last_line() {
    let mut ed = State::new();
    ed.finish_load(&cv("a\nb\nc"));
    press(&mut ed, "G");
    assert_eq!(ed.cursor.y, 2);
    press(&mut ed, "gg");
    assert_eq!(ed.cursor.y, 0);
}

#[test]
fn end_of_line_motion() {
    let mut ed = State::new();
    ed.finish_load(&cv("abcdef"));
    press(&mut ed, "$");
    assert_eq!(ed.cursor.x, 5);
    press(&mut ed, "0");
    assert_eq!(ed.cursor.x, 0);
}

#[test]
fn zero_joins_a_pending_count() {
    let mut ed = State::new();
    ed.finish_load(&cv("abcdefghijklmnop"));
    press(&mut ed, "10l");
    assert_eq!(ed.cursor.x, 10);
}

#[test]
fn count_overflow_falls_back_to_one() {
    let mut ed = State::new();
    ed.finish_load(&cv("abcdef"));
    press(&mut ed, "9999999999l");
    assert_eq!(ed.cursor.x, 1);
}

#[test]
fn delete_yanks_single_character() {
    let mut ed = State::new();
    ed.finish_load(&cv("abc"));
    press(&mut ed, "x");
    assert_eq!(line(&ed, 0), cv("bc\n"));
    assert_eq!(ed.yanked_front().unwrap(), &cv("a"));
}

#[test]
fn repeat_previous_repeats_delete() {
    let mut ed = State::new();
    ed.finish_load(&cv("abcdef"));
    press(&mut ed, "x");
    assert_eq!(line(&ed, 0), cv("bcdef\n"));
    press(&mut ed, ".");
    assert_eq!(line(&ed, 0), cv("cdef\n"));
}

#[test]
fn characterwise_paste_inserts_after_cursor() {
    let mut ed = State::new();
    ed.finish_load(&cv("abc"));
    press(&mut ed, "xp");
    assert_eq!(line(&ed, 0), cv("bac\n"));
}

#[test]
fn paste_with_empty_register_posts_status() {
    let mut ed = State::new();
    press(&mut ed, "p");
    assert_eq!(ed.status, Some(Status::NothingToPaste));
}

#[test]
fn replace_mode_overwrites() {
    let mut ed = State::new();
    ed.finish_load(&cv("ab"));
    press(&mut ed, "Rxy");
    assert_eq!(ed.mode.mode_type(), ModeType::Replace);
    assert_eq!(line(&ed, 0), cv("xy\n"));
}

#[test]
fn escape_returns_to_normal_and_steps_back() {
    let mut ed = State::new();
    press(&mut ed, "iab");
    assert_eq!(ed.cursor.x, 2);
    code(&mut ed, KeyCode::Esc);
    assert_eq!(ed.mode.mode_type(), ModeType::Normal);
    // leaving Insert mode steps the cursor back one column
    assert_eq!(ed.cursor.x, 1);
}

#[test]
fn backspace_deletes_backwards_in_insert_mode() {
    let mut ed = State::new();
    press(&mut ed, "iab");
    code(&mut ed, KeyCode::Backspace);
    assert_eq!(line(&ed, 0), cv("a\n"));
    assert_eq!(ed.cursor.x, 1);
}

#[test]
fn enter_splits_line_in_insert_mode() {
    let mut ed = State::new();
    press(&mut ed, "iab");
    code(&mut ed, KeyCode::Enter);
    assert_eq!(ed.active_buffer().line_len(), 2);
    assert_eq!(line(&ed, 0), cv("ab\n"));
    assert_eq!(line(&ed, 1), cv("\n"));
    assert_eq!(ed.cursor.y, 1);
    assert_eq!(ed.cursor.x, 0);
    // no mode switch: Enter keeps Insert mode
    assert_eq!(ed.mode.mode_type(), ModeType::Insert);
}

#[test]
fn open_line_below_enters_insert_mode() {
    let mut ed = State::new();
    ed.finish_load(&cv("ab"));
    press(&mut ed, "o");
    assert_eq!(ed.active_buffer().line_len(), 2);
    assert_eq!(line(&ed, 1), cv("\n"));
    assert_eq!(ed.cursor.y, 1);
    assert_eq!(ed.mode.mode_type(), ModeType::Insert);
}

#[test]
fn append_at_end_of_line() {
    let mut ed = State::new();
    ed.finish_load(&cv("abc"));
    press(&mut ed, "Az");
    assert_eq!(line(&ed, 0), cv("abcz\n"));
}

#[test]
fn unknown_minibuffer_command_posts_status() {
    let mut ed = State::new();
    press(&mut ed, ":xyz");
    let quit = code(&mut ed, KeyCode::Enter);
    assert!(!quit);
    assert_eq!(ed.status, Some(Status::InvalidCommand { text: cv("xyz") }));
    assert_eq!(ed.microstate, MicroState::Mode);
    assert_eq!(ed.minibuffer.len(), 0);
}

#[test]
fn escape_abandons_minibuffer() {
    let mut ed = State::new();
    press(&mut ed, ":ab");
    assert_eq!(ed.microstate, MicroState::MiniBuffer);
    code(&mut ed, KeyCode::Esc);
    assert_eq!(ed.microstate, MicroState::Mode);
    assert_eq!(ed.minibuffer.len(), 0);
}

#[test]
fn minibuffer_backspace_edits_command() {
    let mut ed = State::new();
    press(&mut ed, ":wz");
    code(&mut ed, KeyCode::Backspace);
    let quit = code(&mut ed, KeyCode::Enter);
    assert!(!quit);
    // the corrected command is "w": a save with no bound path does nothing
    assert_eq!(ed.status, None);
    assert_eq!(ed.take_io_requests().len(), 0);
}

#[test]
fn quit_command_requests_quit() {
    let mut ed = State::new();
    press(&mut ed, ":q");
    let quit = code(&mut ed, KeyCode::Enter);
    assert!(quit);
}

#[test]
fn save_without_path_does_nothing() {
    let mut ed = State::new();
    press(&mut ed, ":w");
    code(&mut ed, KeyCode::Enter);
    assert_eq!(ed.status, None);
    assert_eq!(ed.take_io_requests().len(), 0);
}

#[test]
fn buffer_cycling_wraps_both_ways() {
    let mut ed = State::new();
    press(&mut ed, ":new");
    code(&mut ed, KeyCode::Enter);
    assert_eq!(ed.buffer_idx, 1);
    press(&mut ed, ":bn");
    code(&mut ed, KeyCode::Enter);
    assert_eq!(ed.buffer_idx, 0);
    // retreating from index 0 wraps to the last buffer
    press(&mut ed, ":bp");
    code(&mut ed, KeyCode::Enter);
    assert_eq!(ed.buffer_idx, 1);
}

#[test]
fn space_b_n_cycles_buffers() {
    let mut ed = State::new();
    press(&mut ed, ":new");
    code(&mut ed, KeyCode::Enter);
    assert_eq!(ed.buffer_idx, 1);
    press(&mut ed, " bn");
    assert_eq!(ed.buffer_idx, 0);
    press(&mut ed, " bp");
    assert_eq!(ed.buffer_idx, 1);
}

#[test]
fn pending_keystrokes_buffer_until_resolved() {
    let mut ed = State::new();
    ed.finish_load(&cv("ab\ncd"));
    press(&mut ed, "d");
    assert_eq!(ed.keystrokes.len(), 1);
    assert_eq!(ed.active_buffer().line_len(), 2);
    press(&mut ed, "d");
    assert_eq!(ed.keystrokes.len(), 0);
    assert_eq!(ed.active_buffer().line_len(), 1);
}

#[test]
fn io_failure_report_posts_status() {
    let mut ed = State::new();
    ed.report_io_failed(cv("f.txt"), cv("permission denied"));
    assert_eq!(
        ed.status,
        Some(Status::IoFailed { path: cv("f.txt"), reason: cv("permission denied") }),
    );
}

#[test]
fn open_line_above_via_capital_o() {
    let mut ed = State::new();
    ed.finish_load(&cv("ab\ncd"));
    press(&mut ed, "j");
    assert_eq!(ed.cursor.y, 1);
    press(&mut ed, "O");
    assert_eq!(ed.active_buffer().line_len(), 3);
    assert_eq!(line(&ed, 0), cv("ab\n"));
    assert_eq!(line(&ed, 1), cv("\n"));
    assert_eq!(line(&ed, 2), cv("cd\n"));
    assert_eq!(ed.cursor.y, 1);
    assert_eq!(ed.mode.mode_type(), ModeType::Insert);
}

#[test]
fn normal_mode_resolves_count_into_repeat() {
    let mut ed = miv::mode::Mode::normal_mode();
    assert_eq!(ed.keys_pressed(&[k('2')]), None);
    assert_eq!(
        ed.keys_pressed(&[k('l')]),
        Some(Action::Repeat(Box::new(Action::MoveCursor(Direction::Right)), 2)),
    );
}

#[test]
fn mode_metadata_names() {
    assert_eq!(miv::mode::Mode::normal_mode().display(), "Normal");
    assert_eq!(miv::mode::Mode::insert_mode().display(), "Insert");
    assert_eq!(miv::mode::Mode::replace_mode().display(), "Replace");
}

#[test]
fn deleting_the_line_marker_is_safe() {
    let mut ed = State::new();
    ed.finish_load(&cv("a"));
    // 'l' steps onto the trailing marker; 'x' removes it
    press(&mut ed, "lx");
    assert_eq!(line(&ed, 0), cv("a"));
    assert_eq!(ed.yanked_front().unwrap(), &cv("\n"));
    // nothing is left under the cursor: another 'x' does nothing
    press(&mut ed, "x");
    assert_eq!(line(&ed, 0), cv("a"));
}

#[test]
fn switching_buffers_clamps_cursor() {
    let mut ed = State::new();
    ed.finish_load(&cv("a\nb\nc"));
    press(&mut ed, "G");
    assert_eq!(ed.cursor.y, 2);
    press(&mut ed, ":new");
    code(&mut ed, KeyCode::Enter);
    // the fresh one-line buffer cannot hold row 2: the cursor is clamped
    assert_eq!(ed.cursor.y, 0);
    assert_eq!(ed.cursor.x, 0);
    press(&mut ed, ":bn");
    code(&mut ed, KeyCode::Enter);
    assert_eq!(ed.buffer_idx, 0);
}
