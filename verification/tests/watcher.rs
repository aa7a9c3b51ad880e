use autosplit_timer::watcher::{LogWatcher, WatchEvent};

fn text(s: &str) -> Option<String> {
    Some(s.to_string())
}

fn boss_and_level(end_of_file: u64) -> LogWatcher {
    LogWatcher::new(
        end_of_file,
        text("run started"),
        text("reset now"),
        vec![text("boss defeated"), text("level complete")],
    )
}

#[test]
fn a_new_watcher_starts_at_the_end_of_the_log() {
    let watcher = boss_and_level(29);
    assert_eq!(watcher.current_split(), 0);
    assert_eq!(watcher.split_count(), 2);
    assert_eq!(watcher.position(), 29);
    assert_eq!(watcher.read_offset(Some(29)), 29);
    assert_eq!(watcher.read_offset(Some(43)), 29);
    assert_eq!(watcher.read_offset(None), 29);
}

#[test]
fn appended_triggers_give_splits_in_order() {
    // The log holds "boss defeated\nlevel complete\n" when the watcher is made.
    let mut watcher = LogWatcher::new(
        29,
        None,
        None,
        vec![text("boss defeated"), text("level complete")],
    );

    let offset = watcher.read_offset(Some(43));
    assert_eq!(offset, 29);
    let events = watcher.poll(Some(43), b"boss defeated\n");
    assert_eq!(events, vec![WatchEvent::Split(0)]);
    assert_eq!(watcher.current_split(), 1);
    assert_eq!(watcher.position(), 43);

    let offset = watcher.read_offset(Some(58));
    assert_eq!(offset, 43);
    let events = watcher.poll(Some(58), b"level complete\n");
    assert_eq!(events, vec![WatchEvent::Split(1)]);
    assert_eq!(watcher.current_split(), 2);
    assert_eq!(watcher.position(), 58);
}

#[test]
fn what_was_in_the_log_before_is_not_replayed() {
    let mut watcher = boss_and_level(29);
    let events = watcher.poll(Some(29), b"");
    assert_eq!(events, vec![]);
    assert_eq!(watcher.current_split(), 0);
    assert_eq!(watcher.position(), 29);
}

#[test]
fn a_truncated_log_is_read_again_from_its_start() {
    let mut watcher = boss_and_level(0);
    let events = watcher.poll(Some(14), b"boss defeated\n");
    assert_eq!(events, vec![WatchEvent::Split(0)]);
    assert_eq!(watcher.current_split(), 1);
    assert_eq!(watcher.position(), 14);

    // The log was truncated to nothing and "reset now" was appended.
    assert_eq!(watcher.read_offset(Some(10)), 0);
    let events = watcher.poll(Some(10), b"reset now\n");
    assert_eq!(events, vec![WatchEvent::Reset]);
    assert_eq!(watcher.current_split(), 0);
    assert_eq!(watcher.position(), 10);

    // From there the log is read on as before.
    assert_eq!(watcher.read_offset(Some(24)), 10);
    let events = watcher.poll(Some(24), b"boss defeated\n");
    assert_eq!(events, vec![WatchEvent::Split(0)]);
    assert_eq!(watcher.position(), 24);
}

#[test]
fn a_log_of_unknown_length_is_read_on_from_the_position() {
    let mut watcher = boss_and_level(100);
    assert_eq!(watcher.read_offset(None), 100);
    let events = watcher.poll(None, b"run started\n");
    assert_eq!(events, vec![WatchEvent::Start]);
    assert_eq!(watcher.position(), 112);
}

#[test]
fn an_incomplete_line_waits_for_its_newline() {
    let mut watcher = boss_and_level(0);
    let events = watcher.poll(Some(9), b"boss defe");
    assert_eq!(events, vec![]);
    assert_eq!(watcher.position(), 0);
    assert_eq!(watcher.current_split(), 0);

    let events = watcher.poll(Some(20), b"boss defeated\nlevel ");
    assert_eq!(events, vec![WatchEvent::Split(0)]);
    assert_eq!(watcher.position(), 14);
    assert_eq!(watcher.read_offset(Some(29)), 14);

    let events = watcher.poll(Some(29), b"level complete\n");
    assert_eq!(events, vec![WatchEvent::Split(1)]);
    assert_eq!(watcher.position(), 29);
}

#[test]
fn polling_in_two_steps_gives_what_one_poll_gives() {
    let log: &[u8] =
        b"run started\nnoise\nboss defeated\nlevel complete\nreset now\nboss defeated\n";
    let mut whole = boss_and_level(0);
    let expected = whole.poll(Some(log.len() as u64), log);
    assert_eq!(
        expected,
        vec![
            WatchEvent::Start,
            WatchEvent::Split(0),
            WatchEvent::Split(1),
            WatchEvent::Reset,
            WatchEvent::Split(0),
        ]
    );
    for cut in 0..=log.len() {
        let mut watcher = boss_and_level(0);
        let mut events = watcher.poll(Some(cut as u64), &log[..cut]);
        let offset = watcher.read_offset(Some(log.len() as u64)) as usize;
        events.extend(watcher.poll(Some(log.len() as u64), &log[offset..]));
        assert_eq!(events, expected);
        assert_eq!(watcher.current_split(), whole.current_split());
        assert_eq!(watcher.position(), whole.position());
    }
}

#[test]
fn the_reset_trigger_goes_before_the_others() {
    let mut watcher = boss_and_level(0);
    watcher.set_split_index(1);
    let events = watcher.poll(None, b"level complete, reset now, run started\n");
    assert_eq!(events, vec![WatchEvent::Reset]);
    assert_eq!(watcher.current_split(), 0);
}

#[test]
fn the_start_trigger_goes_before_the_split_trigger() {
    let mut watcher = boss_and_level(0);
    let events = watcher.poll(None, b"run started: boss defeated\n");
    assert_eq!(events, vec![WatchEvent::Start]);
    assert_eq!(watcher.current_split(), 0);
}

#[test]
fn only_the_expected_split_fires() {
    let mut watcher = boss_and_level(0);
    let events = watcher.poll(None, b"level complete\n");
    assert_eq!(events, vec![]);
    assert_eq!(watcher.current_split(), 0);

    let events = watcher.poll(None, b"boss defeated\nboss defeated\nlevel complete\n");
    assert_eq!(events, vec![WatchEvent::Split(0), WatchEvent::Split(1)]);
    assert_eq!(watcher.current_split(), 2);

    let events = watcher.poll(None, b"boss defeated\nlevel complete\n");
    assert_eq!(events, vec![]);
    assert_eq!(watcher.current_split(), 2);
}

#[test]
fn a_reset_in_the_log_rewinds_the_cursor_at_once() {
    let mut watcher = boss_and_level(0);
    let events = watcher.poll(None, b"boss defeated\nreset now\nboss defeated\n");
    assert_eq!(
        events,
        vec![WatchEvent::Split(0), WatchEvent::Reset, WatchEvent::Split(0)]
    );
    assert_eq!(watcher.current_split(), 1);
}

#[test]
fn a_split_without_a_trigger_never_fires() {
    let mut watcher = LogWatcher::new(0, None, None, vec![None, text("level complete")]);
    let events = watcher.poll(None, b"boss defeated\nlevel complete\n\n");
    assert_eq!(events, vec![]);
    assert_eq!(watcher.current_split(), 0);
    watcher.set_split_index(1);
    let events = watcher.poll(None, b"level complete\n");
    assert_eq!(events, vec![WatchEvent::Split(1)]);
}

#[test]
fn triggers_that_are_not_configured_never_fire() {
    let mut watcher = LogWatcher::new(0, None, None, vec![]);
    let events = watcher.poll(None, b"run started\nreset now\nboss defeated\n");
    assert_eq!(events, vec![]);
    assert_eq!(watcher.current_split(), 0);
    assert_eq!(watcher.position(), 36);
}

#[test]
fn an_empty_trigger_fires_on_every_line() {
    let mut watcher = LogWatcher::new(0, text(""), None, vec![text("boss defeated")]);
    let events = watcher.poll(None, b"boss defeated\n\nanything\n");
    assert_eq!(
        events,
        vec![WatchEvent::Start, WatchEvent::Start, WatchEvent::Start]
    );
    assert_eq!(watcher.current_split(), 0);
}

#[test]
fn matching_tells_upper_from_lower_case() {
    let mut watcher = boss_and_level(0);
    let events = watcher.poll(None, b"Boss Defeated\nBOSS DEFEATED\n");
    assert_eq!(events, vec![]);
    let events = watcher.poll(None, b"[12:00] the boss defeated you\n");
    assert_eq!(events, vec![WatchEvent::Split(0)]);
}

#[test]
fn lines_are_matched_as_they_stand() {
    let mut watcher =
        LogWatcher::new(0, text(" go"), text("stop "), vec![text("boss defeated")]);
    let log: &[u8] = b"  boss defeated \r\n go\r\nstop \r\nnow go on\r\nstop it\r\n";
    let events = watcher.poll(None, log);
    assert_eq!(
        events,
        vec![
            WatchEvent::Split(0),
            WatchEvent::Start,
            WatchEvent::Reset,
            WatchEvent::Start,
            WatchEvent::Reset,
        ]
    );
}

#[test]
fn a_trigger_that_ends_in_a_space_fires_at_the_end_of_a_line() {
    let mut watcher = LogWatcher::new(0, None, None, vec![text("done ")]);
    let events = watcher.poll(Some(10), b"all done \n");
    assert_eq!(events, vec![WatchEvent::Split(0)]);
    assert_eq!(watcher.current_split(), 1);
    assert_eq!(watcher.position(), 10);
}

#[test]
fn a_trigger_that_starts_with_a_space_fires_at_the_start_of_a_line() {
    let mut watcher = LogWatcher::new(0, text(" go"), None, vec![]);
    assert_eq!(watcher.poll(None, b" go\n"), vec![WatchEvent::Start]);
    assert_eq!(watcher.poll(None, b"go\n"), vec![]);
}

#[test]
fn a_line_with_the_reset_trigger_resets_whatever_else_it_holds() {
    let lines: Vec<&[u8]> = vec![
        b"reset now\n",
        b"reset now \n",
        b" reset now\r\n",
        b"run started, boss defeated, level complete: reset now\n",
    ];
    for cursor in 0..=2 {
        for line in &lines {
            let mut watcher = boss_and_level(0);
            watcher.set_split_index(cursor);
            assert_eq!(watcher.poll(None, line), vec![WatchEvent::Reset]);
            assert_eq!(watcher.current_split(), 0);
        }
    }
    for cursor in 0..=1 {
        let mut watcher = LogWatcher::new(0, None, text("reset "), vec![text("x")]);
        watcher.set_split_index(cursor);
        assert_eq!(watcher.poll(None, b"x reset \n"), vec![WatchEvent::Reset]);
        assert_eq!(watcher.current_split(), 0);
    }
}

#[test]
fn lines_of_text_are_matched_as_the_text_is() {
    let mut watcher = LogWatcher::new(
        0,
        None,
        None,
        vec![text("niveau termin\u{e9}"), text("\u{1f3c1}"), text("\u{a0}fin")],
    );
    let log = [
        "niveau termine\n",
        "niveau termin\u{e9} !\n",
        "\u{a0}arriv\u{e9}e \u{1f3c1}\u{3000}\n",
        "\u{a0}fin\n",
        "la\u{a0}fin\n",
    ]
    .concat();
    let events = watcher.poll(None, log.as_bytes());
    assert_eq!(
        events,
        vec![WatchEvent::Split(0), WatchEvent::Split(1), WatchEvent::Split(2)]
    );
    assert_eq!(watcher.position(), log.len() as u64);
}

#[test]
fn bytes_that_are_not_text_are_searched_all_the_same() {
    let mut watcher = boss_and_level(0);
    let events = watcher.poll(None, b"\xff\xfe boss defeated \x80\n\xc3\n");
    assert_eq!(events, vec![WatchEvent::Split(0)]);
    assert_eq!(watcher.position(), 21);
}

#[test]
fn the_cursor_is_moved_by_hand() {
    let mut watcher = boss_and_level(0);
    watcher.set_split_index(2);
    assert_eq!(watcher.current_split(), 2);
    watcher.set_split_index(1);
    assert_eq!(watcher.current_split(), 1);
    watcher.reset_split_index();
    assert_eq!(watcher.current_split(), 0);
    assert_eq!(watcher.position(), 0);
}

#[test]
fn the_cursor_never_passes_the_number_of_splits() {
    let mut watcher = boss_and_level(0);
    watcher.set_split_index(3);
    assert_eq!(watcher.current_split(), 2);
    watcher.set_split_index(usize::MAX);
    assert_eq!(watcher.current_split(), 2);
    let events = watcher.poll(None, b"boss defeated\nlevel complete\n");
    assert_eq!(events, vec![]);
    assert_eq!(watcher.current_split(), 2);
}

#[test]
fn one_line_gives_one_event_with_the_cursor_where_it_is() {
    let mut watcher = boss_and_level(0);
    assert_eq!(watcher.event_for(b"boss defeated"), Some(WatchEvent::Split(0)));
    assert_eq!(watcher.event_for(b"level complete"), None);
    assert_eq!(watcher.event_for(b"run started"), Some(WatchEvent::Start));
    assert_eq!(watcher.event_for(b"reset now"), Some(WatchEvent::Reset));
    assert_eq!(watcher.event_for(b""), None);
    assert_eq!(watcher.current_split(), 0);
    watcher.set_split_index(1);
    assert_eq!(watcher.event_for(b"boss defeated"), None);
    assert_eq!(watcher.event_for(b"level complete"), Some(WatchEvent::Split(1)));
}

#[test]
fn the_position_counts_the_bytes_of_complete_lines() {
    let mut watcher = boss_and_level(7);
    let events = watcher.poll(Some(30), b"\n\nabc\nrest");
    assert_eq!(events, vec![]);
    assert_eq!(watcher.position(), 13);
}

#[test]
fn a_checked_poll_takes_what_an_offset_can_hold() {
    let mut watcher = boss_and_level(u64::MAX - 14);
    assert_eq!(watcher.poll_checked(None, b"boss defeated\nx"), None);
    assert_eq!(watcher.position(), u64::MAX - 14);
    assert_eq!(watcher.current_split(), 0);
    let events = watcher.poll_checked(None, b"boss defeated\n");
    assert_eq!(events, Some(vec![WatchEvent::Split(0)]));
    assert_eq!(watcher.position(), u64::MAX);
    assert_eq!(watcher.current_split(), 1);

    // A log that is found shorter is read from its start, where there is room.
    let events = watcher.poll_checked(Some(15), b"level complete\n");
    assert_eq!(events, Some(vec![WatchEvent::Split(1)]));
    assert_eq!(watcher.position(), 15);
}
