//! What holds of every input, on some.
use tttt::backend::MockPty;
use tttt::base64;
use tttt::device::{
    exit_code, kill_step, kill_target, ChildState, KillAction, WriteAction, WriteEvent,
    WriteProgress, CHUNK_SIZE, MAX_RETRIES, POLL_MS,
};
use tttt::event::{Direction, LogEvent};
use tttt::input::{DisplayConfig, InputEvent, InputParser, MouseButton, RawInput};
use tttt::json;
use tttt::keys::{has_whole_hex_escapes, process_special_keys};
use tttt::manager::SessionManager;
use tttt::notification::NotificationRegistry;
use tttt::pane_renderer::PaneRenderer;
use tttt::protocol::{decode_message, encode_message};
use tttt::pty_widget::PtyWidget;
use tttt::replay::SessionReplay;
use tttt::sandbox::path_starts_with;
use tttt::scheduler::{BusyPolicy, Scheduler, SchedulerEvent};
use tttt::screen::ScreenBuffer;
use tttt::selection::Selection;
use tttt::session::{PtySession, SessionMetadata, SessionStatus};
use tttt::sidebar::SidebarRenderer;
use tttt::sidebar_widget::SidebarWidget;
use tttt::text;
use tttt::time::{Duration, Instant};
use tttt::viewer::ViewerClient;
use tttt::vt100::cell::Color;
use tttt::vt100::parser::Parser;

#[test]
fn base64_reads_back() {
    for n in 0..20u8 {
        let data: Vec<u8> = (0..n).map(|i| i.wrapping_mul(37).wrapping_add(200)).collect();
        assert_eq!(base64::decode(&base64::encode(&data)), Ok(data));
    }
    assert_eq!(base64::encode(b"hello"), "aGVsbG8=");
    assert_eq!(base64::encode(b""), "");
    assert!(base64::decode("a*==").is_err());
}

#[test]
fn writing_covers_everything() {
    let data: Vec<u8> = (0..1300u32).map(|i| i as u8).collect();
    let mut written = Vec::new();
    let (mut progress, mut action) = WriteProgress::start(data.len(), true);
    let mut turn = 0;
    loop {
        let (start, end) = match action {
            WriteAction::Write { start, end } => (start, end),
            WriteAction::Retry { start, end } => (start, end),
            WriteAction::Done => break,
            other => panic!("unexpected action: {:?}", other),
        };
        assert_eq!(start, written.len());
        assert!(end - start <= CHUNK_SIZE);
        turn += 1;
        let event = if turn % 3 == 0 {
            WriteEvent::NotReady
        } else {
            let n = (end - start).min(100 + turn);
            written.extend_from_slice(&data[start..start + n]);
            WriteEvent::Wrote(n)
        };
        (progress, action) = progress.step(event);
    }
    assert_eq!(written, data);
}

#[test]
fn writing_gives_up() {
    let (mut progress, mut action) = WriteProgress::start(10, true);
    assert_eq!(progress.step(WriteEvent::Wrote(0)).1, WriteAction::WroteNothing);
    assert_eq!(progress.step(WriteEvent::Failed).1, WriteAction::Broken);
    let mut tries = 0;
    while action != WriteAction::TimedOut {
        (progress, action) = progress.step(WriteEvent::NotReady);
        tries += 1;
    }
    assert_eq!(tries, MAX_RETRIES);
    let (patient, _) = WriteProgress::start(10, false);
    assert_eq!(patient.step(WriteEvent::Wrote(0)).1, WriteAction::Write { start: 0, end: 10 });
    assert_eq!(WriteProgress::start(0, true).1, WriteAction::Done);
}

#[test]
fn killing_is_bounded() {
    let mut polls = 0;
    let mut actions = Vec::new();
    for step in 0..=255u8 {
        let action = kill_step(step, false);
        if action == KillAction::Stop {
            break;
        }
        if action == KillAction::Poll {
            polls += 1;
        } else {
            actions.push((step, action));
        }
    }
    assert_eq!(actions, vec![(0, KillAction::Terminate), (4, KillAction::Kill)]);
    assert_eq!(polls * POLL_MS, 650);
    assert_eq!(kill_step(2, true), KillAction::Stop);
}

#[test]
fn direction_names_are_read_back() {
    for d in [Direction::Input, Direction::Output, Direction::Meta] {
        assert_eq!(Direction::from_name(d.as_str()), d);
    }
    assert_eq!(Direction::from_name("sideways"), Direction::Meta);
}

fn events(pieces: &[&[u8]]) -> Vec<InputEvent> {
    let mut parser = InputParser::new(DisplayConfig::default());
    pieces.iter().flat_map(|p| parser.process(&RawInput { bytes: p.to_vec() })).collect()
}

#[test]
fn plain_input_passes_through() {
    let text = "grüße\r\n\u{7f}".as_bytes();
    assert_eq!(events(&[text]), vec![InputEvent::PassThrough(text.to_vec())]);
}

#[test]
fn doubled_prefix_is_literal() {
    assert_eq!(events(&[&[0x1c, 0x1c]]), vec![InputEvent::PassThrough(vec![0x1c])]);
}

#[test]
fn cut_reports_are_held_back() {
    let whole = events(&[b"ab\x1b[<0;10;5M"]);
    assert_eq!(
        whole,
        vec![
            InputEvent::PassThrough(b"ab".to_vec()),
            InputEvent::MousePress { button: MouseButton::Left, col: 9, row: 4 },
        ],
    );
    for cut in 5..12 {
        let report = b"ab\x1b[<0;10;5M";
        assert_eq!(events(&[&report[..cut], &report[cut..]]), whole);
    }
}

#[test]
fn json_stays_on_one_line() {
    let event = LogEvent::with_timestamp(5, "a\nb\"c".to_string(), Direction::Meta, vec![10, 13]);
    let line = event.to_json();
    assert!(!line.contains('\n'));
    assert_eq!(
        line,
        "{\"timestamp_ms\":5,\"session_id\":\"a\\nb\\\"c\",\"direction\":\"meta\",\"data\":\"Cg0=\"}",
    );
    assert_eq!(json::list(&[json::number(1), json::flag(true)]), "[1,true]");
    assert_eq!(json::list(&[]), "[]");
    let members = vec![
        json::entry("a", json::optional_string(&None)),
        json::entry("b", json::optional_string(&Some("x\ty".to_string()))),
    ];
    assert_eq!(json::object(&members), "{\"a\":null,\"b\":\"x\\ty\"}");
}

#[test]
fn plain_text_stands_for_itself() {
    let text = "ls -la äöü";
    assert_eq!(process_special_keys(text), text.as_bytes());
    let mut expected = text.as_bytes().to_vec();
    expected.push(b'\r');
    assert_eq!(process_special_keys(&format!("{}[ENTER]", text)), expected);
}

#[test]
fn control_notations_agree() {
    for letter in b'A'..=b'Z' {
        let upper = letter as char;
        let lower = upper.to_ascii_lowercase();
        let byte = vec![letter - b'A' + 1];
        assert_eq!(process_special_keys(&format!("^{}", upper)), byte);
        assert_eq!(process_special_keys(&format!("^{}", lower)), byte);
        assert_eq!(process_special_keys(&format!("[CTRL+{}]", upper)), byte);
    }
}

#[test]
fn cut_hex_escapes_are_noticed() {
    assert!(has_whole_hex_escapes("\\x41\\x7"));
    assert!(has_whole_hex_escapes("plain"));
    assert!(!has_whole_hex_escapes("\\x4é"));
    assert_eq!(process_special_keys("\\x41"), b"A");
}

fn session(id: &str) -> PtySession<MockPty> {
    PtySession::new(id.to_string(), MockPty::new(80, 24), "bash".to_string(), 80, 24)
}

#[test]
fn listings_are_ordered_and_complete() {
    let mut manager: SessionManager<MockPty> = SessionManager::new();
    for id in ["pty-11", "other", "pty-2", "pty-9", "pty-x", "pty-1"] {
        manager.add_session(session(id)).unwrap();
    }
    let ids: Vec<String> = manager.list().into_iter().map(|m| m.id).collect();
    assert_eq!(ids, vec!["other", "pty-x", "pty-1", "pty-2", "pty-9", "pty-11"]);
}

#[test]
fn sessions_are_found_until_they_are_killed() {
    let mut manager: SessionManager<MockPty> = SessionManager::new();
    manager.add_session(session("pty-1")).unwrap();
    manager.add_session_with_name(session("pty-2"), "shell".to_string()).unwrap();
    assert_eq!(manager.resolve_id("pty-1").unwrap(), "pty-1");
    assert_eq!(manager.resolve_id("pty-2").unwrap(), "pty-2");
    assert_eq!(manager.resolve_id("shell").unwrap(), "pty-2");

    assert!(manager.kill_session("shell").is_err());
    assert!(!manager.has_session("shell"));
    manager.kill_session("pty-2").unwrap();
    assert!(manager.resolve_id("pty-2").is_err());
    assert!(manager.resolve_id("shell").is_err());
    assert_eq!(manager.resolve_id("pty-1").unwrap(), "pty-1");
    assert_eq!(manager.session_count(), 1);
}

#[test]
fn output_may_come_in_pieces() {
    let output = "one\r\n\x1b[31mzwölf\x1b[0m\r\n";
    let mut whole = session("s");
    whole.start_capture(7).unwrap();
    whole.backend_mut().queue_output(output.as_bytes());
    whole.pump().unwrap();
    for cut in 0..=output.len() {
        let mut parts = session("s");
        parts.start_capture(7).unwrap();
        for piece in [&output.as_bytes()[..cut], &output.as_bytes()[cut..]] {
            parts.backend_mut().queue_output(piece);
            parts.pump().unwrap();
        }
        assert_eq!(parts.get_screen(), whole.get_screen());
        assert_eq!(parts.get_screen_formatted(), whole.get_screen_formatted());
        assert_eq!(parts.stop_capture().unwrap().1, output.len() as u64);
    }
}

#[test]
fn first_checks_only_remember() {
    let mut registry = NotificationRegistry::new();
    registry.add_watcher("s".into(), "x", "t".into(), "root".into(), false).unwrap();
    assert!(registry.check_session("s", "x").is_empty());
    assert_eq!(registry.list_watchers()[0].last_screen, Some("x".to_string()));
    // Nothing new, nothing fires.
    assert!(registry.check_session("s", "x").is_empty());
    let fired = registry.check_session("s", "xx");
    assert_eq!(fired.len(), 1);
    assert_eq!(fired[0].watcher_id, "notify-1");
}

#[test]
fn watchers_of_other_sessions_are_left_alone() {
    let mut registry = NotificationRegistry::new();
    registry.add_watcher("a".into(), "x", "ta".into(), "root".into(), true).unwrap();
    registry.add_watcher("b".into(), "x", "tb".into(), "root".into(), true).unwrap();
    registry.check_session("a", "");
    assert_eq!(registry.check_session("a", "x").len(), 1);
    assert_eq!(registry.watcher_count(), 1);
    assert_eq!(registry.list_watchers()[0].watch_session_id, "b");
    assert_eq!(registry.list_watchers()[0].last_screen, None);
    assert!(!registry.list_watchers()[0].fired);
}

#[test]
fn unchanged_screens_are_not_drawn_again() {
    let mut parser = Parser::new(4, 20, 0);
    parser.process(b"text \x1b[1mbold\x1b[0m");
    let mut renderer = PaneRenderer::new(20, 4, 1, 1);
    assert!(!renderer.render(parser.screen()).is_empty());
    assert!(renderer.render(parser.screen()).is_empty());
    renderer.invalidate();
    assert!(!renderer.render(parser.screen()).is_empty());
}

#[test]
fn viewers_are_sent_nothing_twice() {
    let mut parser = Parser::new(4, 20, 0);
    parser.process(b"text");
    let mut viewer = ViewerClient::new(50, 5, 30);
    assert!(viewer.send_screen_update(parser.screen(), 0, 4).is_some());
    assert!(viewer.send_screen_update(parser.screen(), 0, 4).is_none());
    assert!(viewer.send_screen_update(parser.screen(), 1, 0).is_some());
    viewer.invalidate();
    assert!(viewer.send_screen_update(parser.screen(), 1, 0).is_some());
    assert!(!viewer.sent(false));
    assert!(!viewer.connected);
}

#[test]
fn frames_are_read_back() {
    let mut bytes = encode_message(b"{\"a\":1}");
    assert_eq!(bytes[..4], [0, 0, 0, 7]);
    for n in 0..bytes.len() {
        assert!(decode_message(&bytes[..n]).is_none());
    }
    bytes.extend_from_slice(b"rest");
    assert_eq!(decode_message(&bytes), Some((b"{\"a\":1}".to_vec(), 11)));
    assert_eq!(decode_message(&encode_message(b"")), Some((Vec::new(), 4)));
}

#[test]
fn the_last_line_is_shown() {
    let mut parser = Parser::new(6, 4, 0);
    parser.process(b"a\r\nb\r\nc\r\nd\r\ne\r\nf");
    for height in 1..6u16 {
        let lines = PtyWidget::new(parser.screen()).render(4, height);
        let last = lines[height as usize - 1][0].as_ref().unwrap();
        assert_eq!(last.symbol, "f");
    }
}

fn recorded() -> Vec<LogEvent> {
    let output = |ts: u64, text: &str| {
        LogEvent::with_timestamp(ts, "s".to_string(), Direction::Output, text.as_bytes().to_vec())
    };
    let note = LogEvent::with_timestamp(
        25,
        "s".to_string(),
        Direction::Meta,
        b"{\"type\":\"resize\",\"cols\":100,\"rows\":30}".to_vec(),
    );
    vec![output(10, "one "), output(20, "two "), note, output(30, "three ")]
}

#[test]
fn forward_seeks_compose() {
    for a in 0..=4 {
        for b in a..=4 {
            let mut steps = SessionReplay::new(recorded(), 80, 24);
            steps.seek_to_index(a);
            steps.seek_to_index(b);
            let mut once = SessionReplay::new(recorded(), 80, 24);
            once.seek_to_index(b);
            assert_eq!(steps.screen_contents(), once.screen_contents());
            assert_eq!(steps.current_index(), once.current_index());
        }
    }
}

#[test]
fn going_back_starts_anew() {
    let mut replay = SessionReplay::new(recorded(), 80, 24);
    replay.seek_to_index(99);
    assert_eq!(replay.current_index(), 4);
    assert_eq!(replay.size(), (100, 30));
    replay.seek_to_index(2);
    assert_eq!(replay.screen_contents(), "one two ");
    assert_eq!(replay.size(), (80, 24));
}

#[test]
fn paths_lie_in_themselves_and_in_what_those_lie_in() {
    assert!(path_starts_with("/a/b", "/a/b"));
    assert!(path_starts_with("/a/b/c", "/a/b"));
    assert!(path_starts_with("/a/b", "/a"));
    assert!(path_starts_with("/a/b/c", "/a"));
    assert!(!path_starts_with("/ab", "/a"));
    assert!(!path_starts_with("/a", "/a/b"));
    assert!(!path_starts_with("a/b", "/a"));
}

fn at(millis: u64) -> Instant {
    Instant { nanos: 1_000_000_000 }.plus(Duration::from_millis(millis))
}

#[test]
fn ticks_lose_nothing_and_fire_once() {
    let mut scheduler = Scheduler::with_epoch(at(0));
    for (message, due) in [("a", 500), ("b", 100), ("c", 900)] {
        scheduler.add_reminder(message.to_string(), at(due));
    }
    scheduler
        .add_cron("1s".to_string(), "job".to_string(), None, BusyPolicy::default(), at(0))
        .unwrap();
    let names = |events: Vec<SchedulerEvent>| -> Vec<String> {
        events
            .into_iter()
            .map(|e| match e {
                SchedulerEvent::ReminderFired(r) => r.message,
                SchedulerEvent::CronFired(j) => j.command,
            })
            .collect()
    };
    // Quiet before the wake time, and not from there on.
    assert_eq!(scheduler.next_wake(), Some(at(100)));
    assert!(scheduler.tick(at(99)).is_empty());
    let first = names(scheduler.tick(at(600)));
    assert_eq!(first.len(), 2);
    assert_eq!(scheduler.reminder_count(), 1);
    // What has fired does not fire again at the same time.
    assert!(scheduler.tick(at(600)).is_empty());
    let mut all = first;
    all.extend(names(scheduler.tick(at(1_000))));
    all.sort();
    assert_eq!(all, vec!["a", "b", "c", "job"]);
    assert_eq!(scheduler.reminder_count(), 0);
    assert_eq!(scheduler.cron_count(), 1);
}

#[test]
fn drawing_twice_draws_once() {
    let mut buffer = ScreenBuffer::new(20, 4);
    buffer.process(b"some \x1b[4mtext\x1b[0m\r\nmore");
    assert!(!buffer.contents_diff().is_empty());
    assert!(buffer.contents_diff().is_empty());
    buffer.process(b"!");
    assert!(!buffer.contents_diff().is_empty());
}

#[test]
fn pieces_make_no_difference_to_a_screen() {
    let output = "a\x1b[2;3Hb\x1b[7mü\x1b[0m\x1b[1;1H中";
    let mut whole = Parser::new(4, 10, 0);
    whole.process(output.as_bytes());
    for cut in 0..=output.len() {
        let mut parts = Parser::new(4, 10, 0);
        parts.process(&output.as_bytes()[..cut]);
        parts.process(&output.as_bytes()[cut..]);
        assert_eq!(parts.screen().contents_formatted(), whole.screen().contents_formatted());
        assert_eq!(parts.screen().cursor_position(), whole.screen().cursor_position());
    }
}

#[test]
fn printed_text_is_shown() {
    let text: String = (0x20..0x7fu8).map(|b| b as char).collect();
    for n in 0..=text.len() {
        let mut parser = Parser::new(3, 95, 0);
        parser.process(text[..n].as_bytes());
        assert_eq!(parser.screen().contents(), text[..n]);
    }
}

#[test]
fn unchanged_screens_need_no_bytes() {
    let mut parser = Parser::new(4, 10, 0);
    parser.process(b"\x1b[32mtext");
    assert!(parser.screen().contents_diff(parser.screen()).is_empty());
}

#[test]
fn selections_are_the_same_from_either_end() {
    let mut parser = Parser::new(3, 10, 0);
    parser.process(b"abcdef\r\nghijkl");
    let mut down = Selection::new(0, 2);
    down.update(1, 3);
    let mut up = Selection::new(1, 3);
    up.update(0, 2);
    assert_eq!(down.range(), up.range());
    assert_eq!(down.extract_text(parser.screen()), "cdef\nghij");
    assert_eq!(up.extract_text(parser.screen()), "cdef\nghij");
    for row in 0..3 {
        for col in 0..10 {
            assert_eq!(down.contains(row, col), up.contains(row, col));
        }
    }
}

fn metadata(id: &str) -> SessionMetadata {
    SessionMetadata {
        id: id.to_string(),
        command: "bash".to_string(),
        status: SessionStatus::Running,
        cols: 80,
        rows: 24,
        name: None,
        created_at: None,
    }
}

#[test]
fn ascii_can_be_drawn_and_lines_go_down() {
    let sessions: Vec<SessionMetadata> = (0..5).map(|i| metadata(&format!("session-{}", i))).collect();
    let reminders = vec!["one".to_string(), "a reminder that is much too long".to_string()];
    for width in 0..40u16 {
        for rows in 1..15u16 {
            let lines = SidebarRenderer::new(width).render(&sessions, Some("session-1"), 120, rows, &reminders);
            for (i, line) in lines.iter().enumerate() {
                if i > 0 {
                    assert!(line.row > lines[i - 1].row);
                }
            }
        }
    }
}

#[test]
fn rows_are_inside_and_go_down() {
    let sessions: Vec<SessionMetadata> = (0..3).map(|i| metadata(&format!("pty-{}", i))).collect();
    let reminders = vec!["one".to_string(), "two".to_string()];
    for height in 0..12u16 {
        let rows = SidebarWidget::new(&sessions, None, &reminders).render(20, height);
        assert!(rows.iter().all(|r| r.offset < height));
        if height >= 8 {
            let offsets: Vec<u16> = rows.iter().map(|r| r.offset).collect();
            assert_eq!(offsets, (0..height).collect::<Vec<u16>>());
        }
    }
}

#[test]
fn torn_characters_are_noticed() {
    let mut wide = metadata("pty-1");
    wide.name = Some("ää".to_string());
    let sessions = vec![wide];
    // Two bytes a letter: cut behind the first byte of one, or not.
    for (width, fits) in [(6, true), (7, false), (8, true), (9, false), (10, true), (12, true)] {
        let renderer = SidebarRenderer::new(width);
        assert_eq!(renderer.can_render(&sessions, None, 80, 6, &[]), fits, "{}", width);
        // Without a row for the session nothing is cut.
        assert!(renderer.can_render(&sessions, None, 80, 3, &[]));
    }
}

#[test]
fn lists_of_any_letters_can_be_drawn() {
    let mut wide = metadata("pty-1");
    wide.name = Some("ää中中ä".to_string());
    let sessions = vec![wide];
    let reminders = vec!["äää".to_string()];
    for width in 0..40u16 {
        let widget = SidebarWidget::new(&sessions, None, &reminders).build_info("ä中");
        assert!(widget.can_render(width, 8), "{}", width);
        for row in widget.render(width, 8) {
            assert!(row.text.chars().count() >= usize::from(width.saturating_sub(3)));
        }
    }
    let many = vec!["r".to_string(); 0xffff];
    assert!(!SidebarWidget::new(&[], None, &many).can_render(20, 5));
    assert!(SidebarWidget::new(&[], None, &many).can_render(0, 5));
}

#[test]
fn exit_codes_and_targets() {
    assert_eq!(exit_code(ChildState::Exited(3)), Some(3));
    assert_eq!(exit_code(ChildState::Signaled), Some(128));
    assert_eq!(exit_code(ChildState::Running), None);
    assert_eq!(exit_code(ChildState::Unknown { closed: true }), Some(0));
    assert_eq!(exit_code(ChildState::Unknown { closed: false }), None);
    assert_eq!(kill_target(Some(7), Some(9)), Some(7));
    assert_eq!(kill_target(None, Some(9)), Some(-9));
    assert_eq!(kill_target(None, None), None);
}

#[test]
fn decimals_read_back() {
    for n in [0, 7, 10, 99, 100, 65_535, u64::MAX] {
        let chars = text::decimal_chars(n);
        assert_eq!(text::from_chars(&chars), n.to_string());
        assert_eq!(text::parse_unsigned(&chars, u64::MAX), Some(n));
    }
    assert_ne!(text::decimal_chars(1), text::decimal_chars(10));
    assert_eq!(text::parse_unsigned(&text::to_chars("70000"), 65_535), None);
    assert_eq!(text::parse_unsigned(&text::to_chars(""), 10), None);
}

fn look(parser: &Parser) -> Vec<(String, bool, bool, bool, Color, Color)> {
    let (rows, cols) = parser.screen().size();
    let mut all = Vec::new();
    for r in 0..rows {
        for c in 0..cols {
            let cell = parser.screen().cell(r, c).unwrap();
            let text = cell.contents();
            let text = if text.is_empty() { " ".to_string() } else { text };
            all.push((
                text,
                cell.is_wide_continuation(),
                cell.bold(),
                cell.inverse(),
                cell.fgcolor(),
                cell.bgcolor(),
            ));
        }
    }
    all
}

const BUSY: &[u8] = "plain \x1b[1;31mbold\x1b[0m \u{4e2d}e\u{301}\r\n\x1b[7;38;5;200mpalette\x1b[48;2;1;2;3mrgb\x1b[K\r\n\x1b[0;97;104mbright\u{1f600}\x1b[?25l"
    .as_bytes();

#[test]
fn drawing_reproduces_the_screen() {
    let mut parser = Parser::new(4, 20, 0);
    parser.process(BUSY);
    let mut other = Parser::new(4, 20, 0);
    other.process("\x1b[42mold \u{4e2d}\u{4e2d} text\r\nmore\x1b[3;5H".as_bytes());
    other.process(&parser.screen().contents_formatted());
    assert_eq!(look(&other), look(&parser));
    assert_eq!(other.screen().cursor_position(), parser.screen().cursor_position());
    assert!(other.screen().hide_cursor());
    assert_eq!(other.screen().contents(), parser.screen().contents());
}

#[test]
fn lines_run_on_in_a_reproduced_screen() {
    for (rows, cols, output) in [
        (2, 1, "ab"),
        (4, 5, "a long line of text"),
        (3, 5, "wide\u{4e2d}\u{6587}\u{5b57}"),
        (3, 4, "abcdef\x1b[1;1Hxyzw"),
        (3, 4, "\x1b[2;3r\x1b[2;1Habcdefghij"),
        (2, 3, "abc"),
        (2, 3, "abc\x1b[2K"),
        (2, 3, "abc\x1b[44m\x1b[1K"),
        (2, 4, "ab\u{4e2d}"),
    ] {
        let mut parser = Parser::new(rows, cols, 0);
        parser.process(output.as_bytes());
        let mut other = Parser::new(rows, cols, 0);
        other.process(b"\x1b[1;2r\x1b[31mwxyzwxyz");
        other.process(&parser.screen().contents_formatted());
        assert_eq!(look(&other), look(&parser));
        assert_eq!(other.screen().contents(), parser.screen().contents());
        assert_eq!(other.screen().cursor_position(), parser.screen().cursor_position());
        // What follows goes on as it would have.
        for more in ["q", "\u{6587}r", "\x1b[K\x1b[As"] {
            let before = parser.screen().clone();
            parser.process(more.as_bytes());
            let mut third = Parser::new(rows, cols, 0);
            third.process(&before.contents_formatted());
            third.process(&parser.screen().contents_diff(&before));
            assert_eq!(look(&third), look(&parser));
            assert_eq!(third.screen().contents(), parser.screen().contents());
            assert_eq!(third.screen().cursor_position(), parser.screen().cursor_position());
        }
    }
    let mut parser = Parser::new(2, 1, 0);
    parser.process(b"ab");
    assert_eq!(parser.screen().contents(), "ab");
}

#[test]
fn differences_update_the_display() {
    let mut parser = Parser::new(4, 20, 0);
    parser.process(BUSY);
    let mut other = Parser::new(4, 20, 0);
    other.process(&parser.screen().contents_formatted());
    let changes: [&[u8]; 5] = [
        b"\x1b[1;12Hx",
        "\x1b[1;13H\u{6587}\u{5b57}".as_bytes(),
        b"\x1b[1;14H\x1b[P",
        b"\x1b[2;3H\x1b[1K\x1b[?25h",
        b"\x1b[4;1Hlast\r\nscrolled",
    ];
    for change in changes {
        let before = parser.screen().clone();
        parser.process(change);
        other.process(&parser.screen().contents_diff(&before));
        assert_eq!(look(&other), look(&parser));
        assert_eq!(other.screen().cursor_position(), parser.screen().cursor_position());
        assert_eq!(other.screen().hide_cursor(), parser.screen().hide_cursor());
    }
}

#[test]
fn buffers_keep_a_display_current() {
    let mut buffer = ScreenBuffer::new(12, 3);
    let mut display = Parser::new(3, 12, 0);
    for output in ["one\r\n", "\x1b[32mtwo\r\nthree\r\nfour", "\x1b[2J\x1b[Hempty"] {
        buffer.process(output.as_bytes());
        display.process(&buffer.contents_diff());
        for r in 0..3 {
            for c in 0..12 {
                let shown = display.screen().cell(r, c).unwrap();
                let meant = buffer.screen().cell(r, c).unwrap();
                assert_eq!(shown.contents().trim(), meant.contents().trim());
                assert_eq!(shown.fgcolor(), meant.fgcolor());
            }
        }
        assert_eq!(display.screen().cursor_position(), buffer.cursor_position());
        assert_eq!(display.screen().contents(), buffer.contents());
    }
    assert_eq!(display.screen().contents(), "empty");
}

#[test]
fn panes_show_the_screen_and_spare_the_rest() {
    let mut display = Parser::new(6, 20, 0);
    for r in 1..=6 {
        display.process(format!("\x1b[{};1H####################", r).as_bytes());
    }
    let mut pane = PaneRenderer::new(5, 2, 3, 4);
    let mut parser = Parser::new(2, 5, 0);
    parser.process(b"ab\r\n\x1b[1mcdefg");
    display.process(&pane.render(parser.screen()));
    parser.process(b"\x1b[1;2HX");
    display.process(&pane.render(parser.screen()));
    let full = "####################";
    assert_eq!(
        display.screen().contents(),
        format!("{full}{full}###aX   ############\n###cdefg############\n{full}{full}")
            .replace(full, &format!("{full}\n"))
            .trim_end()
    );
    assert!(display.screen().cell(3, 3).unwrap().bold());
}

#[test]
fn panes_lose_wide_characters() {
    let mut display = Parser::new(2, 10, 0);
    let mut pane = PaneRenderer::new(4, 1, 1, 1);
    let mut parser = Parser::new(1, 4, 0);
    parser.process("\u{4e2d}x".as_bytes());
    display.process(&pane.render(parser.screen()));
    assert_eq!(display.screen().contents(), "  x ");
}

#[test]
fn characters_are_not_cut_in_two() {
    let mut parser = Parser::new(1, 6, 0);
    parser.process("\u{4e2d}\u{6587}".as_bytes());
    parser.process(b"\x1b[2G\x1b[X");
    assert_eq!(parser.screen().contents(), "  \u{6587}");
    parser.process(b"\x1b[4G\x1b[@");
    assert_eq!(parser.screen().contents(), "");
    parser.process("\x1b[1G\u{4e2d}\x1b[31m\u{6587}".as_bytes());
    parser.process(b"\x1b[2G\x1b[2P");
    assert_eq!(parser.screen().contents(), "");
    parser.process("\x1b[5G\u{4e2d}".as_bytes());
    parser.set_size(1, 5);
    assert_eq!(parser.screen().contents(), "");
}

#[test]
fn overlong_encodings_are_no_characters() {
    let mut parser = Parser::new(1, 6, 0);
    parser.process(b"a\xe0\x80\x9bb");
    assert_eq!(parser.screen().contents(), "a\u{fffd}b");
}

#[test]
fn buffers_have_the_size_last_given() {
    let mut buffer = ScreenBuffer::with_scrollback(10, 2, 3);
    for i in 0..6 {
        buffer.process(format!("line {}\r\n", i).as_bytes());
    }
    assert_eq!(buffer.size(), (10, 2));
    let all = buffer.get_scrollback(buffer.scrollback_lines());
    assert_eq!(all, vec!["line 2", "line 3", "line 4"]);
    for m in 0..5 {
        let n = m.min(all.len());
        assert_eq!(buffer.get_scrollback(m), all[all.len() - n..].to_vec());
    }
    buffer.resize(7, 5);
    buffer.process(b"\x1b[8;50;50tmore");
    buffer.set_scrollback(9);
    buffer.contents_diff();
    assert_eq!(buffer.size(), (7, 5));
    assert_eq!(buffer.screen().size(), (5, 7));
}

fn merge(events: Vec<InputEvent>) -> Vec<InputEvent> {
    let mut all: Vec<InputEvent> = Vec::new();
    for event in events {
        match (all.pop(), event) {
            (Some(InputEvent::PassThrough(mut a)), InputEvent::PassThrough(b)) => {
                a.extend(b);
                all.push(InputEvent::PassThrough(a));
            }
            (last, event) => {
                all.extend(last);
                all.push(event);
            }
        }
    }
    all
}

#[test]
fn cuts_in_the_input_make_no_difference() {
    let input = b"ab\x1c1c\x1b[<0;3;4Md\x1b[A\x1b[<zM\x1c\x1cxy\x1b[<64;1;1m\x1cn";
    let mut whole = InputParser::new(DisplayConfig::default());
    let once = merge(whole.process(&RawInput { bytes: input.to_vec() }));
    for cut in 0..=input.len() {
        let (a, b) = input.split_at(cut);
        if a.ends_with(b"\x1b") || a.ends_with(b"\x1b[") {
            continue;
        }
        let mut parser = InputParser::new(DisplayConfig::default());
        let mut events = parser.process(&RawInput { bytes: a.to_vec() });
        events.extend(parser.process(&RawInput { bytes: b.to_vec() }));
        assert_eq!(merge(events), once);
        assert_eq!(parser.is_prefix_armed(), whole.is_prefix_armed());
    }
}

#[test]
fn plain_characters_are_kept() {
    let plain = "h\u{e9}llo \u{4e2d}\u{1f600} ]";
    assert_eq!(process_special_keys(plain), plain.as_bytes());
    let mut expected = plain.as_bytes().to_vec();
    expected.push(3);
    assert_eq!(process_special_keys(&format!("{}^C", plain)), expected);
}

#[test]
fn selections_have_a_line_of_text_per_line() {
    let mut parser = Parser::new(4, 6, 0);
    parser.process("one  \u{4e2d}two\r\n\r\nx".as_bytes());
    for last in 0..6 {
        let mut selection = Selection::new(0, 1);
        selection.update(last, 3);
        let text = selection.extract_text(parser.screen());
        assert_eq!(text.matches('\n').count(), last as usize);
        assert!(text.split('\n').all(|line| line.trim_end() == line));
    }
}
