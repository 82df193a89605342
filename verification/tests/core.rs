//! The terminal core: wrapping, the scrollback buffer, the link index,
//! the animation routines, and the color tables.

use termcore::animate::{instant_line, BootRoutine, LineOptions, TypingRoutine};
use termcore::buffer::{BufferLine, InputMode, LineBuffer, LineType, TerminalState};
use termcore::color::{get_color, get_color_value};
use termcore::linkmap::LinkMap;
use termcore::vehicle::{fly_y, print_block, sprite_step};
use termcore::wrap::wrap;

fn chunks(s: &str, w: usize) -> Vec<String> {
    wrap(s, w)
}

#[test]
fn wrap_short_line_is_returned_unchanged() {
    assert_eq!(chunks("hello world", 20), vec!["hello world"]);
    assert_eq!(chunks("hello", 5), vec!["hello"]);
}

#[test]
fn wrap_empty_content_is_one_empty_chunk() {
    assert_eq!(chunks("", 5), vec![""]);
}

#[test]
fn wrap_breaks_on_word_boundary_and_consumes_the_space() {
    assert_eq!(chunks("hello world", 5), vec!["hello", "world"]);
    assert_eq!(chunks("aa bb cc", 5), vec!["aa bb", "cc"]);
}

#[test]
fn wrap_hard_cuts_without_a_space() {
    assert_eq!(chunks("abcdefgh", 3), vec!["abc", "def", "gh"]);
    assert_eq!(chunks("ab cd", 2), vec!["ab", "cd"]);
    assert_eq!(chunks("abc d", 2), vec!["ab", "c", "d"]);
}

#[test]
fn wrap_round_trip_restores_the_original() {
    // soft breaks consumed exactly one space each; re-join with single spaces
    let parts = chunks("the quick brown fox jumps", 6);
    assert_eq!(parts, vec!["the", "quick", "brown", "fox", "jumps"]);
    assert_eq!(parts.join(" "), "the quick brown fox jumps");
}

#[test]
fn wrap_never_returns_a_chunk_longer_than_the_width() {
    for w in 1..10 {
        for s in ["a bb ccc dddd eeeee", "  spaced  out  ", "nospacesatallhere"] {
            for c in wrap(s, w) {
                assert!(c.chars().count() <= w);
                assert!(!c.is_empty());
            }
        }
    }
}

#[test]
fn wrap_zero_width_is_treated_as_one_column() {
    assert_eq!(chunks("abc", 0), vec!["a", "b", "c"]);
}

#[test]
fn buffer_starts_with_the_default_state() {
    let b = LineBuffer::new();
    let st: TerminalState = b.get_terminal_state();
    assert_eq!(st.prompt, "objz@portfolio:~$ ");
    assert_eq!(st.current_input, "");
    assert_eq!(st.cursor_position, 0);
    assert_eq!(st.scroll_offset, 0);
    assert!(matches!(st.input_mode, InputMode::Normal));
}

#[test]
fn append_caches_the_wrapped_rows_for_the_current_width() {
    let mut b = LineBuffer::new();
    b.set_dimensions(5, 25);
    b.add_line("hello world".to_string(), LineType::Normal, None);
    let lines = b.get_visible_lines(100);
    assert_eq!(lines.len(), 1);
    assert_eq!(lines[0].wrapped_lines, vec!["hello", "world"]);
    assert_eq!(lines[0].get_line_count(), 2);
}

#[test]
fn rewrap_is_recomputed_on_resize_and_is_idempotent() {
    let mut b = LineBuffer::new();
    b.add_line("hello world".to_string(), LineType::Normal, None);
    b.set_dimensions(5, 25);
    let once: Vec<Vec<String>> =
        b.get_visible_lines(100).iter().map(|l| l.wrapped_lines.clone()).collect();
    b.set_dimensions(5, 25);
    let twice: Vec<Vec<String>> =
        b.get_visible_lines(100).iter().map(|l| l.wrapped_lines.clone()).collect();
    assert_eq!(once, twice);
    assert_eq!(once[0], vec!["hello", "world"]);
}

#[test]
fn append_then_clamp_keeps_exactly_the_last_thousand() {
    let mut b = LineBuffer::new();
    for i in 1..=1050 {
        b.add_line(format!("{}", i), LineType::Output, None);
    }
    let lines = b.get_visible_lines(1_000_000_000);
    assert_eq!(lines.len(), 1000);
    assert_eq!(lines[0].content, "51");
    assert_eq!(lines[999].content, "1050");
}

#[test]
fn scroll_bounds_are_clamped_both_ways() {
    let mut b = LineBuffer::new();
    b.set_dimensions(80, 5);
    for i in 0..20 {
        b.add_line(format!("line {}", i), LineType::Output, None);
    }
    // 20 rows on a 5-row screen: at most 15 rows of backlog
    assert!(b.scroll_up(1000));
    assert_eq!(b.get_terminal_state().scroll_offset, 15);
    assert!(!b.scroll_up(1));
    assert!(b.scroll_down(7));
    assert_eq!(b.get_terminal_state().scroll_offset, 8);
    assert!(b.scroll_down(100));
    assert_eq!(b.get_terminal_state().scroll_offset, 0);
    assert!(!b.scroll_down(1));
}

#[test]
fn scroll_then_new_output_keeps_the_offset_until_reset() {
    let mut b = LineBuffer::new();
    b.set_dimensions(80, 5);
    for i in 0..20 {
        b.add_line(format!("line {}", i), LineType::Output, None);
    }
    b.scroll_up(5);
    assert_eq!(b.get_terminal_state().scroll_offset, 5);
    b.add_line("new output".to_string(), LineType::Output, None);
    assert_eq!(b.get_terminal_state().scroll_offset, 5);
    b.auto_scroll_to_bottom();
    assert_eq!(b.get_terminal_state().scroll_offset, 0);
    b.scroll_up(3);
    b.reset_scroll();
    assert_eq!(b.get_terminal_state().scroll_offset, 0);
}

#[test]
fn visible_window_returns_exactly_the_requested_rows() {
    let mut b = LineBuffer::new();
    b.add_line("a".to_string(), LineType::Output, None);
    b.add_line("b".to_string(), LineType::Output, None);
    b.add_line("c".to_string(), LineType::Output, None);
    assert_eq!(b.visible_window(2), vec!["b", "c"]);
    assert_eq!(b.visible_window(10), vec!["a", "b", "c"]);
    assert_eq!(b.visible_window(0).len(), 0);
}

#[test]
fn visible_window_honors_the_scroll_offset() {
    let mut b = LineBuffer::new();
    b.set_dimensions(80, 2);
    for i in 0..6 {
        b.add_line(format!("r{}", i), LineType::Output, None);
    }
    b.scroll_up(2);
    // a 2-row screen scrolled up 2 rows: the last 4 rows come back,
    // and the render pass shows the first screenful of them
    assert_eq!(b.visible_window(2), vec!["r2", "r3", "r4", "r5"]);
}

#[test]
fn visible_window_counts_physical_rows_of_wrapped_lines() {
    let mut b = LineBuffer::new();
    b.set_dimensions(5, 25);
    b.add_line("hello world".to_string(), LineType::Output, None);
    b.add_line("x".to_string(), LineType::Output, None);
    // three physical rows in all: "hello", "world", "x"
    assert_eq!(b.visible_window(2), vec!["world", "x"]);
    assert_eq!(b.visible_window(3), vec!["hello", "world", "x"]);
}

#[test]
fn visible_lines_are_row_exact_and_trim_the_boundary_line() {
    let mut b = LineBuffer::new();
    b.set_dimensions(5, 25);
    b.add_line("hello world".to_string(), LineType::Output, None);  // 2 rows
    b.add_line("x".to_string(), LineType::Output, None);  // 1 row
    // a 2-row budget shows "x" and the lower row of the wrapped line
    let two = b.get_visible_lines(2);
    assert_eq!(two.len(), 2);
    assert_eq!(two[0].content, "hello world");
    assert_eq!(two[0].wrapped_lines, vec!["world"]);
    assert_eq!(two[1].content, "x");
    // a 1-row budget shows exactly one row, never zero
    let one = b.get_visible_lines(1);
    assert_eq!(one.len(), 1);
    assert_eq!(one[0].content, "x");
    let rows: usize = one.iter().map(|l| l.get_line_count()).sum();
    assert_eq!(rows, 1);
    // the whole buffer fits a generous budget untrimmed
    let three = b.get_visible_lines(3);
    assert_eq!(three.len(), 2);
    assert_eq!(three[0].wrapped_lines, vec!["hello", "world"]);
}

#[test]
fn multiline_output_is_split_into_separate_lines() {
    let mut b = LineBuffer::new();
    b.add_output_lines("one\ntwo\nthree\n", None);
    let lines = b.get_visible_lines(100);
    let contents: Vec<&str> = lines.iter().map(|l| l.content.as_str()).collect();
    assert_eq!(contents, vec!["one", "two", "three"]);
}

#[test]
fn command_echo_line_carries_the_cyan_command_color() {
    let mut b = LineBuffer::new();
    b.add_command_line("objz@portfolio:~$ ", "ls");
    let lines = b.get_visible_lines(100);
    assert_eq!(lines[0].content, "objz@portfolio:~$ ls");
    assert!(matches!(lines[0].line_type, LineType::Command));
    assert_eq!(lines[0].color.as_deref(), Some("cyan"));
}

#[test]
fn input_cursor_is_clamped_to_the_codepoint_count() {
    let mut b = LineBuffer::new();
    b.update_input_state("abc".to_string(), 10);
    assert_eq!(b.get_terminal_state().cursor_position, 3);
    b.update_input_state("\u{00e9}x".to_string(), 5);
    assert_eq!(b.get_terminal_state().cursor_position, 2);
}

#[test]
fn clear_buffer_empties_the_log_and_resets_scroll() {
    let mut b = LineBuffer::new();
    b.add_line("x".to_string(), LineType::Output, None);
    b.clear_buffer();
    assert_eq!(b.get_visible_lines(100).len(), 0);
    assert_eq!(b.get_terminal_state().scroll_offset, 0);
}

#[test]
fn link_resolution_finds_the_first_url_and_misses_the_gap() {
    let mut m = LinkMap::new();
    let text = "see https://a.test/x and https://b.test/y";
    let id = m.detect_links(text, 0, 0, 10, 20);
    assert_eq!(id, 0);
    // first URL spans columns 4..20, second 25..41, at 10 px a cell
    assert_eq!(m.find_link(100, 10).as_deref(), Some("https://a.test/x"));
    assert_eq!(m.find_link(210, 10), None);
    assert_eq!(m.find_link(300, 10).as_deref(), Some("https://b.test/y"));
    assert_eq!(m.find_link(100, 50), None);
}

#[test]
fn link_scan_stops_at_brackets_and_skips_malformed_prefixes() {
    let mut m = LinkMap::new();
    m.detect_links("[http://a.b] and httpx://nope", 0, 0, 1, 1);
    assert_eq!(m.find_link(5, 0).as_deref(), Some("http://a.b"));
    assert_eq!(m.find_link(20, 0), None);
}

#[test]
fn link_ids_advance_and_clear_resets_them() {
    let mut m = LinkMap::new();
    assert_eq!(m.detect_links("no links here", 0, 0, 1, 1), 0);
    assert_eq!(m.detect_links("still none", 0, 0, 1, 1), 1);
    m.clear();
    assert_eq!(m.detect_links("after clear", 0, 0, 1, 1), 0);
    assert_eq!(m.find_link(0, 0), None);
}

#[test]
fn typing_commit_happens_only_after_the_last_draw() {
    let mut b = LineBuffer::new();
    let before = b.get_visible_lines(100).len();
    let mut t = TypingRoutine::start("OK".to_string(), 20, None, &mut b);
    assert!(matches!(b.get_terminal_state().input_mode, InputMode::Disabled));

    let s1 = t.step(&mut b);
    assert_eq!(s1.display, "O");
    assert_eq!(s1.delay_ms, 20);
    assert_eq!(b.get_visible_lines(100).len(), before);

    let s2 = t.step(&mut b);
    assert_eq!(s2.display, "OK");
    assert_eq!(b.get_visible_lines(100).len(), before);
    assert!(!t.done);

    let s3 = t.step(&mut b);
    assert_eq!(s3.display, "OK");
    assert!(t.done);
    let lines = b.get_visible_lines(100);
    assert_eq!(lines.len(), before + 1);
    assert_eq!(lines[before].content, "OK");
    assert!(matches!(lines[before].line_type, LineType::Typing));
}

#[test]
fn boot_routine_spins_four_frames_then_commits_ok() {
    let mut b = LineBuffer::new();
    let mut r = BootRoutine::start("Probing hardware...".to_string(), None, &mut b);
    for _ in 0..4 {
        let s = r.step(&mut b);
        assert_eq!(s.delay_ms, 60);
        assert!(s.display.starts_with("Probing hardware... "));
        assert_eq!(b.get_visible_lines(100).len(), 0);
    }
    let last = r.step(&mut b);
    assert!(r.done);
    assert_eq!(last.display, "Probing hardware... [OK]");
    let lines = b.get_visible_lines(100);
    assert_eq!(lines.len(), 1);
    assert_eq!(lines[0].content, "Probing hardware... [OK]");
    assert!(matches!(lines[0].line_type, LineType::Boot));
}

#[test]
fn instant_routine_commits_in_one_step() {
    let mut b = LineBuffer::new();
    let s = instant_line(&mut b, "ready", None);
    assert_eq!(s.display, "ready");
    assert_eq!(s.delay_ms, 0);
    assert_eq!(b.get_visible_lines(100)[0].content, "ready");
}

#[test]
fn line_options_builders_set_their_fields() {
    let o = LineOptions::new().with_color("cyan").with_typing(10);
    assert_eq!(o.color.as_deref(), Some("cyan"));
    assert_eq!(o.typing_speed, Some(10));
    assert!(!o.boot_animation);
    let b = LineOptions::new().with_boot_animation();
    assert!(b.boot_animation);
}

#[test]
fn color_names_map_to_their_hex_values() {
    assert_eq!(get_color_value("red"), "#ff0000");
    assert_eq!(get_color_value("cyan"), "#00ffff");
    assert_eq!(get_color_value("grey"), "#808080");
    assert_eq!(get_color_value("warning"), "#ffaa00");
    assert_eq!(get_color_value("#123456"), "#123456");
    assert_eq!(get_color_value("rgb(1,2,3)"), "rgb(1,2,3)");
    assert_eq!(get_color_value("no-such-color"), "#ffffff");
}

#[test]
fn line_kinds_have_their_default_colors() {
    assert_eq!(get_color(&LineType::Command, None), "#00ffff");
    assert_eq!(get_color(&LineType::Output, None), "#ffffff");
    assert_eq!(get_color(&LineType::System, None), "#ffff00");
    assert_eq!(get_color(&LineType::Output, Some("green")), "#00ff00");
}

#[test]
fn sprite_step_selects_frames_by_column_and_ends_off_screen() {
    let frames: Vec<Vec<String>> = vec![vec!["AB".to_string()], vec!["CD".to_string()]];
    let mut b = LineBuffer::new();
    assert!(!sprite_step(&mut b, &frames, 4, 1, 0, 5));
    assert_eq!(b.get_visible_lines(100)[0].content, "AB");
    assert!(!sprite_step(&mut b, &frames, 4, 1, 1, 5));
    assert_eq!(b.get_visible_lines(100)[1].content, "CD");
    // the logo divides the counter by three
    assert!(!sprite_step(&mut b, &frames, 4, 3, 2, 5));
    assert_eq!(b.get_visible_lines(100)[2].content, "AB");
    let before = b.get_visible_lines(100).len();
    assert!(sprite_step(&mut b, &frames, 4, 1, -5, 5));
    assert_eq!(b.get_visible_lines(100).len(), before);
}

#[test]
fn print_block_stacks_rows_and_fly_y_descends() {
    let mut b = LineBuffer::new();
    let rows: Vec<String> = vec!["aa".to_string(), "bb".to_string()];
    print_block(&mut b, &rows, 0, 0);
    let lines = b.get_visible_lines(100);
    assert_eq!(lines[0].content, "aa");
    assert_eq!(lines[1].content, "bb");
    assert_eq!(fly_y(14, 7, 6), 2 + 550 - 100 - 6);
    assert_eq!(fly_y(-14, 7, 0), -2 + 550 - 100);
}

#[test]
fn panic_script_types_everything_but_the_progress_rows() {
    let mut s = termcore::animate::PanicScript::new();
    let mut lines = Vec::new();
    while let Some(step) = s.next() {
        lines.push(step);
    }
    assert_eq!(lines.len(), 16);
    assert_eq!(lines[0].0, "CRITICAL SYSTEM ERROR");
    assert_eq!(lines[0].1, "error");
    assert!(lines[0].2);
    assert!(lines[3].0.starts_with("rm: removing /usr"));
    assert!(!lines[3].2);
    assert_eq!(lines[15].0, "Shutdown failed. Recovery was possible.");
    assert_eq!(lines[15].1, "success");
    assert!(s.next().is_none());
}

#[test]
fn buffer_line_duplicate_preserves_every_field() {
    let mut l = BufferLine::new("abc def".to_string(), LineType::Normal, Some("red".to_string()));
    l.calc_wrapping(3);
    let d = l.duplicate();
    assert_eq!(d.content, l.content);
    assert_eq!(d.color, l.color);
    assert_eq!(d.wrapped_lines, l.wrapped_lines);
}
