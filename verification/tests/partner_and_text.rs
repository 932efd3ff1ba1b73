use gtd_cli::board::WeeklyBoard;
use gtd_cli::listing::{
    _previous_weekly_board, compute_review_streak, list_weekly_board_dates, load_checklist_files,
    streak_from_gaps,
};
use gtd_cli::partner::{
    board_date_from_file_name, import_markdown_board, parse_list_item, run_import, run_write,
    wrap_notes, wrap_paragraph,
};
use gtd_cli::paths::{
    checklist_path, data_dir_for, join_path, trigger_list_file, weekly_board_path,
};
use gtd_cli::ui::{
    center_text, divider_line, push_styled_line, truncate_display, word_wrap, StyledLine, Tone,
};

fn strings(v: &[&str]) -> Vec<String> {
    v.iter().map(|s| s.to_string()).collect()
}

#[test]
fn paragraph_wraps_at_width() {
    assert_eq!(wrap_paragraph("the quick brown fox", 9), strings(&["the quick", "brown fox"]));
    assert_eq!(wrap_paragraph("a verylongword b", 4), strings(&["a", "verylongword", "b"]));
    assert!(wrap_paragraph("   ", 10).is_empty());
}

#[test]
fn wrapped_lines_keep_the_words() {
    let text = "one two  three\tfour five six seven";
    let lines = wrap_paragraph(text, 10);
    assert_eq!(lines.join(" "), text.split_whitespace().collect::<Vec<_>>().join(" "));
    for l in &lines {
        assert!(!l.is_empty());
        assert!(l.len() <= 10 || !l.contains(' '));
    }
}

#[test]
fn notes_keep_paragraphs_and_lists() {
    assert_eq!(
        wrap_notes("Hello world\n\n- item one two", 10),
        "Hello\nworld\n\n- item one\n  two\n\n"
    );
    assert_eq!(wrap_notes("Score: 8/10\n\nSome text", 110), "Score: 8/10\n\nSome text\n\n");
    assert_eq!(wrap_notes("\u{2022} a b c", 7), "\u{2022} a b\n    c\n\n");
    assert_eq!(wrap_notes("\n\n\n\n", 20), "");
}

#[test]
fn notes_paragraph_break_is_kept() {
    let pairs = [
        ("Plan the week carefully", "- ship it\n- rest"),
        ("Ends with newline\n", "\nStarts with one"),
        ("### Heading\n- a b c d", "Score: 7/10"),
        ("", "alone"),
    ];
    for (a, b) in pairs.iter() {
        let joined = format!("{}\n\n{}", a, b);
        assert_eq!(wrap_notes(&joined, 12), format!("{}{}", wrap_notes(a, 12), wrap_notes(b, 12)));
    }
}

#[test]
fn wrapped_lines_are_filled_greedily() {
    let text = "the quick brown fox jumps over the lazy dog again and again until dusk";
    for width in [5usize, 9, 12, 20, 31] {
        let lines = wrap_paragraph(text, width);
        for k in 0..lines.len().saturating_sub(1) {
            let next_first = lines[k + 1].split(' ').next().unwrap();
            assert!(lines[k].len() + 1 + next_first.len() > width);
        }
    }
}

#[test]
fn partner_write_sets_score_and_notes() {
    let mut b = WeeklyBoard::default();
    b.accomplishments.push("kept".to_string());
    run_write(&mut b, None, "  hi there  ");
    assert_eq!(b.score, Some(0));
    assert_eq!(b.partner_notes, Some("hi there\n\n".to_string()));
    assert_eq!(b.accomplishments, strings(&["kept"]));
    run_write(&mut b, Some(9), "x");
    assert_eq!(b.score, Some(9));
}

#[test]
fn board_dates_from_file_names() {
    assert_eq!(board_date_from_file_name("battleboard_2024-05-01.md"), "2024-05-01");
    assert_eq!(board_date_from_file_name("notes.md"), "unknown");
    assert_eq!(board_date_from_file_name("battleboard_x.txt"), "unknown");
    assert_eq!(board_date_from_file_name(""), "unknown");
}

#[test]
fn old_board_is_imported() {
    let md = "# Battleboard\n## ACCOUNTABILITY PARTNER NOTES\nScore: 8/10 \u{2014} good week\nKeep it up.\n## LAST WEEK\n### Accomplishments\n- Wrote tests\n* Fixed bug\n### Struggles\n\u{2022} Sleep\n";
    let (date, b) = run_import(md, "battleboard_2024-05-01.md");
    assert_eq!(date, "2024-05-01");
    assert_eq!(b.score, Some(8));
    assert_eq!(b.score_note, Some("good week".to_string()));
    assert_eq!(b.partner_notes, Some("Score: 8/10 \u{2014} good week\nKeep it up.\n\n".to_string()));
    assert_eq!(b.accomplishments, strings(&["Wrote tests", "Fixed bug"]));
    assert_eq!(b.struggles, strings(&["Sleep"]));
}

#[test]
fn partner_section_at_the_end_is_kept() {
    let b = import_markdown_board("## PARTNER NOTES\nAll good\n");
    assert_eq!(b.partner_notes, Some("All good\n\n".to_string()));
    assert_eq!(b.score, None);
}

#[test]
fn list_items() {
    let item = |s: &str| parse_list_item(&s.chars().collect()).map(|v| v.into_iter().collect::<String>());
    assert_eq!(item("- x "), Some("x".to_string()));
    assert_eq!(item("* y"), Some("y".to_string()));
    assert_eq!(item("\u{2022} z"), Some("z".to_string()));
    assert_eq!(item("-x"), None);
}

#[test]
fn text_is_centred() {
    assert_eq!(center_text("ab", 6), "  ab");
    assert_eq!(center_text("abcdef", 4), "abcdef");
    assert_eq!(center_text("\u{2500}\u{2500}", 5), " \u{2500}\u{2500}");
}

#[test]
fn text_is_word_wrapped() {
    assert_eq!(word_wrap("short", 10), strings(&["short"]));
    assert_eq!(word_wrap("aaa bbb ccc", 7), strings(&["aaa bbb", "ccc"]));
}

#[test]
fn text_is_cut_to_columns() {
    assert_eq!(truncate_display("\u{65e5}\u{672c}\u{8a9e}", 4), "\u{65e5}\u{672c}");
    assert_eq!(truncate_display("abc", 10), "abc");
    assert_eq!(truncate_display("abc", 2), "ab");
    assert_eq!(truncate_display("a\u{7}b", 2), "a\u{7}");
}

#[test]
fn dividers_fill_fifty_bytes() {
    let d = divider_line("Horizons");
    assert_eq!(d, format!("\u{2500}\u{2500} Horizons {}", "\u{2500}".repeat(33)));
    let long = "x".repeat(60);
    assert_eq!(divider_line(&long), format!("\u{2500}\u{2500} {} ", long));
}

#[test]
fn note_lines_are_styled() {
    let mut out: Vec<StyledLine> = Vec::new();
    push_styled_line(&mut out, "### Title");
    push_styled_line(&mut out, "## Sub");
    push_styled_line(&mut out, "- **bold** item");
    push_styled_line(&mut out, "plain  ");
    push_styled_line(&mut out, "   ");
    push_styled_line(&mut out, "### ### x");
    assert_eq!(out[0], ("  Title".to_string(), Tone::AccentSoft, true));
    assert_eq!(out[1], ("  Sub".to_string(), Tone::Accent, true));
    assert_eq!(out[2], ("  \u{2022} bold item".to_string(), Tone::FgBright, true));
    assert_eq!(out[3], ("  plain".to_string(), Tone::Fg, false));
    assert_eq!(out[4], (String::new(), Tone::Fg, false));
    assert_eq!(out[5], ("  x".to_string(), Tone::AccentSoft, true));
}

#[test]
fn paths_under_the_data_directory() {
    assert_eq!(data_dir_for("/home/u"), "/home/u/data/gtd");
    assert_eq!(data_dir_for("/home/u/"), "/home/u/data/gtd");
    assert_eq!(weekly_board_path("/d", "2025-01-06"), "/d/weekly/2025-01-06.md");
    assert_eq!(join_path("/d", "/abs"), "/abs");
    assert_eq!(trigger_list_file("/d", true, true), "triggerlist.md");
    assert_eq!(trigger_list_file("/d", false, true), "/d/triggerlist.md");
    assert_eq!(trigger_list_file("/d", false, false), "triggerlist.md");
    assert_eq!(checklist_path("/d", "travel"), "/d/checklists/travel.md");
}

#[test]
fn board_dates_are_sorted_without_template() {
    let names = strings(&["2025-01-13.md", "template.md", "2025-01-06.yaml", "notes.txt"]);
    assert_eq!(list_weekly_board_dates(&names), strings(&["2025-01-06", "2025-01-13"]));
    assert_eq!(
        _previous_weekly_board(&strings(&["2025-01-13.md", "2025-01-06.md", "2025-01-20.md"]), "2025-01-14"),
        Some("2025-01-13".to_string())
    );
    assert_eq!(_previous_weekly_board(&strings(&["2025-01-13.md"]), "2025-01-01"), None);
}

#[test]
fn checklists_are_md_files_sorted() {
    let entries = vec![
        ("travel.md".to_string(), true),
        ("daily.md".to_string(), true),
        ("dir.md".to_string(), false),
        (".md".to_string(), true),
        ("notes.txt".to_string(), true),
    ];
    assert_eq!(load_checklist_files(&entries), strings(&["daily", "travel"]));
    for n in load_checklist_files(&entries) {
        let file = format!("{}.md", n);
        assert!(entries.contains(&(file.clone(), true)));
        assert_eq!(checklist_path("/d", &n), format!("/d/checklists/{}", file));
    }
}

#[test]
fn review_streak_counts_weekly_boards() {
    assert_eq!(compute_review_streak(&Vec::new()), (0, 0));
    assert_eq!(compute_review_streak(&strings(&["2025-01-06", "2025-01-13", "2025-01-20"])), (3, 3));
    assert_eq!(compute_review_streak(&strings(&["2025-01-06", "2025-01-13", "2025-01-27"])), (3, 1));
    assert_eq!(compute_review_streak(&strings(&["bad", "2025-01-13"])), (2, 1));
    assert_eq!(streak_from_gaps(&vec![Some(7), Some(20), Some(6)]), 2);
}
