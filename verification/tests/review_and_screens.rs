use gtd_cli::board::WeeklyBoard;
use gtd_cli::calendar::CalendarEvent;
use gtd_cli::horizons::{Goal, GoalStatus, Profile, Vision};
use gtd_cli::overview::{
    build_altitudes_lines, build_assessment_lines, build_summary_lines, extract_section,
    load_inbox_open, load_latest_accountability, summary_text, AccountabilityNote,
};
use gtd_cli::projects::{Project, ProjectStatus};
use gtd_cli::review::{
    auto_scroll, list_item_at_line, list_item_at_line_with_item, list_total_lines,
    mark_next_action, review_steps, AssessmentState, BrainstormState, CalendarState,
    ChecklistsState, ListState, ReviewViewer, TriggerState,
};
use gtd_cli::session::{init_viewer_state, ReviewAction, ReviewContext, ReviewSession, ViewerInputs, ViewerState};
use gtd_cli::ui::{Key, Tone};

fn strings(v: &[&str]) -> Vec<String> {
    v.iter().map(|s| s.to_string()).collect()
}

fn project(name: &str, items: &[&str]) -> Project {
    Project { name: name.to_string(), items: strings(items), goal: None, status: ProjectStatus::Active }
}

fn event(year: i32, month: u32, day: u32, d: &str) -> CalendarEvent {
    CalendarEvent { year, month, day, description: d.to_string() }
}

fn empty_profile() -> Profile {
    Profile { name: String::new(), purpose: String::new(), core_values: vec![], roles: vec![] }
}

fn empty_vision() -> Vision {
    Vision { time_horizon: "3 years".to_string(), areas: vec![] }
}

fn context() -> ReviewContext {
    ReviewContext { rows: 24, summary_lines: 0, assessment_lines: 0, list: vec![], calendar_len: 0 }
}

#[test]
fn the_review_has_thirteen_steps() {
    let steps = review_steps();
    assert_eq!(steps.len(), 13);
    assert_eq!(steps[0].title, "Collect Loose Papers & Materials");
    assert_eq!(steps[0].viewer, Some(ReviewViewer::Altitudes));
    assert_eq!(steps[1].viewer, None);
    assert_eq!(steps[4].viewer, Some(ReviewViewer::Projects));
    assert_eq!(steps[11].viewer, Some(ReviewViewer::Trigger));
    assert_eq!(steps[12].phase, "Get Creative");
    assert!(steps[1].desc.starts_with("Go through every item in your physical inbox. For each item:\n\u{2022} Is it"));
}

#[test]
fn viewers_open_at_the_top() {
    assert_eq!(ListState::new(0).expanded, vec![true]);
    assert_eq!(ListState::new(3).expanded, vec![true, true, true]);
    let t = TriggerState::new(Some("# S\n- t\n"));
    assert_eq!(t.triggers.len(), 1);
    assert_eq!(TriggerState::new(None).triggers.len(), 0);
    let b = BrainstormState::new(None);
    assert_eq!(b.lines, strings(&["# Brainstorm", "", "No brainstorm file found."]));
    let mut b2 = BrainstormState::new(Some("a\nb\nc\nd"));
    b2.cursor = 3;
    b2.reload(Some("x\ny"));
    assert_eq!(b2.lines, strings(&["x", "y"]));
    assert_eq!(b2.cursor, 1);
    let mut c = ChecklistsState::new(strings(&["a", "b", "c"]));
    c.cursor = 2;
    c.reload(strings(&["a"]));
    assert_eq!(c.cursor, 0);
}

#[test]
fn calendar_opens_on_the_next_event() {
    let es = vec![
        event(2025, 1, 1, "a"),
        event(2025, 1, 10, "b"),
        event(2025, 1, 12, "c"),
        event(2025, 1, 14, "d"),
        event(2025, 1, 20, "e"),
    ];
    let c = CalendarState::new(&es, 20250115);
    assert_eq!((c.cursor, c.scroll), (4, 2));
    let none = CalendarState::new(&es, 20250201);
    assert_eq!((none.cursor, none.scroll), (0, 0));
}

#[test]
fn list_lines_and_entries() {
    let ps = vec![project("P", &["a", "b"]), project("Q", &["c", "d", "e"])];
    let expanded = vec![true, false];
    assert_eq!(list_total_lines(Some(ReviewViewer::Projects), &expanded, &ps), 4);
    assert_eq!(list_total_lines(Some(ReviewViewer::Calendar), &expanded, &ps), 0);
    assert_eq!(list_item_at_line(Some(ReviewViewer::Waiting), &expanded, 0, &ps), Some(0));
    assert_eq!(list_item_at_line(Some(ReviewViewer::Waiting), &expanded, 2, &ps), Some(0));
    assert_eq!(list_item_at_line(Some(ReviewViewer::Waiting), &expanded, 3, &ps), Some(1));
    assert_eq!(list_item_at_line(Some(ReviewViewer::Waiting), &expanded, 4, &ps), None);
    assert_eq!(list_item_at_line(None, &expanded, 0, &ps), None);
    assert_eq!(list_item_at_line_with_item(&expanded, 0, &ps), Some((0, 0)));
    assert_eq!(list_item_at_line_with_item(&expanded, 1, &ps), Some((0, 0)));
    assert_eq!(list_item_at_line_with_item(&expanded, 2, &ps), Some((0, 1)));
    assert_eq!(list_item_at_line_with_item(&expanded, 3, &ps), Some((1, 0)));
    // Entries past the flags show their items.
    assert_eq!(list_total_lines(Some(ReviewViewer::Someday), &vec![], &ps), 7);
}

#[test]
fn scrolling_follows_the_cursor() {
    assert_eq!(auto_scroll(0, 15, 20), 6);
    assert_eq!(auto_scroll(5, 3, 20), 3);
    assert_eq!(auto_scroll(2, 5, 20), 2);
    for cursor in 0..30usize {
        let s = auto_scroll(12, cursor, 9);
        assert!(s <= cursor && cursor < s + 4);
    }
}

#[test]
fn next_action_mark_moves() {
    let mut ps = vec![project("P", &["[>] a", "b", "[>] [>] c"])];
    mark_next_action(&mut ps, 0, 1);
    assert_eq!(ps[0].items, strings(&["a", "[>] b", "[>] c"]));
}

#[test]
fn next_action_is_the_only_mark() {
    let mut ps = vec![
        project("P", &["[>] a", "b", "c", "[>] d"]),
        project("Q", &["[>] x"]),
    ];
    mark_next_action(&mut ps, 0, 2);
    let marked: Vec<usize> = (0..4).filter(|&i| ps[0].items[i].starts_with("[>] ")).collect();
    assert_eq!(marked, vec![2]);
    assert_eq!(ps[0].items, strings(&["a", "b", "[>] c", "d"]));
    assert_eq!(ps[1].items, strings(&["[>] x"]));
}

#[test]
fn assessment_reads_board_dates() {
    let names = strings(&["2025-01-06.md", "template.md", "2025-01-13.md", "x.txt"]);
    let a = AssessmentState::new(&names);
    assert_eq!(a.all_dates, strings(&["2025-01-06", "2025-01-13"]));
    assert_eq!(a.date_index, Some(1));
    assert_eq!(a.current_date(), Some("2025-01-13".to_string()));
    assert_eq!(a.prev_date(), Some("2025-01-06".to_string()));
    let mut b = AssessmentState::new(&names);
    b.reload_dates(&strings(&["2025-01-06.md"]));
    assert_eq!(b.date_index, Some(0));
    let e = AssessmentState::new(&vec![]);
    assert_eq!(e.date_index, None);
    assert_eq!(e.current_date(), None);
    let mut f = AssessmentState::new(&vec![]);
    f.reload_dates(&strings(&["2025-01-06.md", "2025-01-13.md"]));
    assert_eq!(f.date_index, Some(1));
    f.reload_dates(&vec![]);
    assert_eq!(f.date_index, None);
}

#[test]
fn review_session_moves_through_screens() {
    let steps = review_steps();
    let ctx = context();
    let mut s = ReviewSession::new(&strings(&["2025-01-06.md"]));
    assert!(s.showing_summary);
    assert!(s.key_allowed(&steps, Key::Char(' '), &ctx));
    assert!(matches!(s.review_key(&steps, Key::Char(' '), &ctx), ReviewAction::Stay));
    assert!(!s.showing_summary);
    assert_eq!(s.step_index, 0);
    match s.review_key(&steps, Key::Char('e'), &ctx) {
        ReviewAction::EditBoard(d) => assert_eq!(d, "2025-01-06"),
        _ => panic!("expected the board editor"),
    }
    assert!(matches!(s.review_key(&steps, Key::Char(' '), &ctx), ReviewAction::OpenViewer));
    assert_eq!(s.step_index, 1);
    s.viewer = init_viewer_state(steps[1].viewer, inputs());
    assert!(matches!(s.viewer, ViewerState::Nothing));
    assert!(matches!(s.review_key(&steps, Key::Down, &ctx), ReviewAction::OpenViewer));
    assert_eq!(s.step_index, 2);
    assert!(matches!(s.review_key(&steps, Key::Char('b'), &ctx), ReviewAction::OpenViewer));
    assert!(matches!(s.review_key(&steps, Key::Up, &ctx), ReviewAction::Stay));
    assert_eq!(s.step_index, 0);
    assert!(matches!(s.review_key(&steps, Key::Char('b'), &ctx), ReviewAction::Stay));
    assert!(s.showing_summary);
    assert!(matches!(s.review_key(&steps, Key::Char('c'), &ctx), ReviewAction::Capture));
    assert!(matches!(s.review_key(&steps, Key::Char('q'), &ctx), ReviewAction::Quit));
}

#[test]
fn review_loop_keeps_its_invariant() {
    let steps = review_steps();
    let ctx = context();
    let mut s = ReviewSession::new(&strings(&["2025-01-06.md", "2025-01-13.md"]));
    let keys = [Key::Char(' '), Key::Char(' '), Key::Char('b'), Key::Char(' '), Key::Char(' '), Key::Char('l'), Key::Char(' '), Key::Up];
    for n in 0..400 {
        let key = if n < 200 {
            keys[n % keys.len()]
        } else if n % 2 == 0 {
            Key::Char(' ')
        } else {
            Key::Char('D')
        };
        if s.finished || !s.key_allowed(&steps, key, &ctx) {
            continue;
        }
        let a = s.review_key(&steps, key, &ctx);
        if matches!(a, ReviewAction::OpenViewer) {
            s.viewer = init_viewer_state(steps[s.step_index].viewer, inputs());
        }
        assert!(s.step_index < steps.len());
        assert!(!s.showing_summary || s.step_index == 0);
        assert!(!s.finished || s.step_index == steps.len() - 1);
    }
    assert!(s.finished);
    assert_eq!(s.step_index, steps.len() - 1);
    assert!(matches!(s.review_key(&steps, Key::Char('x'), &ctx), ReviewAction::Quit));
}

fn inputs() -> ViewerInputs {
    ViewerInputs {
        list_len: 2,
        events: vec![],
        today: 20250101,
        trigger_file: None,
        checklist_entries: vec![],
        altitudes: vec![],
        brainstorm_file: None,
    }
}

#[test]
fn review_finishes_after_the_last_step() {
    let steps = review_steps();
    let ctx = context();
    let mut s = ReviewSession::new(&vec![]);
    s.showing_summary = false;
    s.step_index = 12;
    s.viewer = init_viewer_state(steps[12].viewer, inputs());
    assert!(matches!(s.viewer, ViewerState::Brainstorm(_)));
    assert!(matches!(s.review_key(&steps, Key::Char('g'), &ctx), ReviewAction::RunBrainstorm));
    assert!(matches!(s.review_key(&steps, Key::Char('D'), &ctx), ReviewAction::Stay));
    assert!(s.finished);
    assert!(matches!(s.review_key(&steps, Key::Char('x'), &ctx), ReviewAction::Quit));
}

#[test]
fn list_viewer_keys() {
    let steps = review_steps();
    let mut ctx = context();
    ctx.list = vec![project("P", &["a", "b"]), project("Q", &[])];
    let mut s = ReviewSession::new(&vec![]);
    s.showing_summary = false;
    s.step_index = 4;
    s.viewer = init_viewer_state(steps[4].viewer, inputs());
    s.review_key(&steps, Key::Char('j'), &ctx);
    s.review_key(&steps, Key::Char('j'), &ctx);
    match s.review_key(&steps, Key::Char('n'), &ctx) {
        ReviewAction::SaveProjects(ps) => assert_eq!(ps[0].items, strings(&["a", "[>] b"])),
        _ => panic!("expected projects to save"),
    }
    s.review_key(&steps, Key::Char('g'), &ctx);
    s.review_key(&steps, Key::Char('x'), &ctx);
    match &s.viewer {
        ViewerState::List(l) => {
            assert_eq!(l.expanded, vec![false, true]);
            assert_eq!(l.cursor, 0);
        },
        _ => panic!("expected the list viewer"),
    }
    s.review_key(&steps, Key::Char('G'), &ctx);
    match &s.viewer {
        ViewerState::List(l) => assert_eq!(l.cursor, 1),
        _ => panic!("expected the list viewer"),
    }
    match s.review_key(&steps, Key::Char('e'), &ctx) {
        ReviewAction::EditViewer(v) => assert_eq!(v, ReviewViewer::Projects),
        _ => panic!("expected the viewer editor"),
    }
}

#[test]
fn sections_of_a_board() {
    let c = "## Coach\nPattern to Watch:\n- Skipping reviews\n- late nights\n\nOne Challenge:\nDo it Monday\n## Next\n";
    assert_eq!(extract_section(c, "Pattern to Watch:"), Some("Skipping reviews late nights".to_string()));
    assert_eq!(extract_section(c, "One Challenge:"), Some("Do it Monday".to_string()));
    assert_eq!(extract_section(c, "Missing:"), None);
    assert_eq!(extract_section("Pattern to Watch:\n\n## X\n", "Pattern to Watch:"), None);
}

#[test]
fn open_inbox_items() {
    assert_eq!(
        load_inbox_open("- [ ] buy milk\n- [x] done\n  - [ ] call mom  \n"),
        strings(&["buy milk", "call mom"])
    );
}

#[test]
fn latest_partner_notes() {
    let with = "Pattern to Watch:\n- p\n\nOne Challenge:\n- c\n".to_string();
    let files = vec![
        ("2025-01-06.md".to_string(), Some(with.clone())),
        ("2025-01-13.md".to_string(), Some("nothing".to_string())),
        ("template.md".to_string(), Some(with.clone())),
        ("2025-02-01.txt".to_string(), Some(with.clone())),
        ("2025-01-20.md".to_string(), None),
    ];
    let n = load_latest_accountability(&files).unwrap();
    assert_eq!(n.date, "2025-01-06");
    assert_eq!(n.pattern, "p");
    assert_eq!(n.challenge, "c");
    assert!(load_latest_accountability(&vec![]).is_none());
}

#[test]
fn assessment_screen_lines() {
    let profile = Profile { name: "Ada".to_string(), purpose: "Build".to_string(), core_values: vec![], roles: vec![] };
    let board = WeeklyBoard {
        score: Some(7),
        score_note: Some("ok".to_string()),
        partner_notes: Some("## Plan\n- **Walk** daily".to_string()),
        accomplishments: strings(&["x"]),
        struggles: vec![],
    };
    let lines = build_assessment_lines(&profile, &board, 80);
    let expected: Vec<(String, Tone, bool)> = vec![
        ("Ada".to_string(), Tone::FgBright, true),
        (String::new(), Tone::Fg, false),
        ("Purpose: Build".to_string(), Tone::Code, false),
        (String::new(), Tone::Fg, false),
        ("\u{1f465} Score: 7/10".to_string(), Tone::Accent, true),
        ("ok".to_string(), Tone::Fg, false),
        ("  Plan".to_string(), Tone::Accent, true),
        ("  \u{2022} Walk daily".to_string(), Tone::FgBright, true),
        (String::new(), Tone::Fg, false),
        ("\u{1f3c3} Last Week".to_string(), Tone::AccentSoft, true),
        ("Accomplishments".to_string(), Tone::Link, true),
        ("  \u{2022} x".to_string(), Tone::Fg, false),
    ];
    assert_eq!(lines, expected);
}

#[test]
fn altitudes_of_an_empty_system() {
    let lines = build_altitudes_lines(&empty_profile(), &empty_vision(), &vec![], &vec![], &vec![]);
    let texts: Vec<&str> = lines.iter().map(|l| l.0.as_str()).collect();
    assert_eq!(
        texts,
        vec![
            "\u{2550}\u{2550}\u{2550} H5 \u{b7} Purpose \u{2550}\u{2550}\u{2550}",
            "",
            "\u{2550}\u{2550}\u{2550} H4 \u{b7} Vision (3-year) \u{2550}\u{2550}\u{2550}",
            "  No vision areas defined.",
            "",
            "\u{2550}\u{2550}\u{2550} H3 \u{b7} Goals \u{2550}\u{2550}\u{2550}",
            "  No active goals.",
            "",
            "\u{2550}\u{2550}\u{2550} H2 \u{b7} Areas of Focus \u{2550}\u{2550}\u{2550}",
            "  No areas defined.",
            "",
            "\u{2550}\u{2550}\u{2550} H1 \u{b7} Projects \u{2550}\u{2550}\u{2550}",
            "  No projects.",
        ]
    );
    assert_eq!(lines[3].1, Tone::DarkGrey);
}

#[test]
fn altitudes_list_active_goals() {
    let goals = vec![
        Goal { text: "Run".to_string(), category: String::new(), target_date: None, status: GoalStatus::Active },
        Goal { text: "Old".to_string(), category: String::new(), target_date: None, status: GoalStatus::Dropped },
        Goal { text: "Read".to_string(), category: String::new(), target_date: Some("2025-12-31".to_string()), status: GoalStatus::Active },
    ];
    let mut profile = empty_profile();
    profile.core_values = strings(&["a", "b"]);
    let lines = build_altitudes_lines(&profile, &empty_vision(), &goals, &vec![], &vec![project("P", &[])]);
    assert_eq!(lines[1].0, "  Values: a, b");
    let texts: Vec<&str> = lines.iter().map(|l| l.0.as_str()).collect();
    assert!(texts.contains(&"  \u{2022} Run (target: no date)"));
    assert!(texts.contains(&"  \u{2022} Read (target: 2025-12-31)"));
    assert!(!texts.iter().any(|t| t.contains("Old")));
    assert_eq!(*texts.last().unwrap(), "  \u{2022} P");
}

#[test]
fn summary_screen_counts() {
    let note = "n".repeat(60);
    let board = WeeklyBoard {
        score: Some(8),
        score_note: Some(note.clone()),
        partner_notes: None,
        accomplishments: vec![],
        struggles: vec![],
    };
    let projects = vec![project("P", &["[>] go"]), project("Q", &[])];
    let events = vec![event(2025, 1, 8, "x"), event(2025, 1, 20, "y")];
    let lines = build_summary_lines(
        &empty_profile(),
        &vec![],
        &vec![],
        &empty_vision(),
        &projects,
        &vec![project("W", &[])],
        &vec![],
        &vec![project("S", &[]), project("T", &[])],
        &events,
        &strings(&["2025-01-06", "2025-01-13"]),
        &board,
        20250106,
    );
    let texts: Vec<String> = lines.iter().map(|l| l.0.clone()).collect();
    assert_eq!(texts[0], format!("\u{2500}\u{2500} Horizons {}", "\u{2500}".repeat(33)));
    assert_eq!(texts[1], "  H5 Purpose          \u{2717} not set");
    assert_eq!(texts[5], "  H1 Projects         1 active");
    assert!(texts.contains(&"  Next Actions        1 item".to_string()));
    assert!(texts.contains(&"  Waiting For         1 item".to_string()));
    assert!(texts.contains(&"  Agendas             0 people".to_string()));
    assert!(texts.contains(&"  Someday/Maybe       2 items".to_string()));
    assert!(texts.contains(&"  This week           1 event".to_string()));
    assert!(texts.contains(&format!("  Latest Score        8/10 \u{2014} {}...", "n".repeat(47))));
    assert_eq!(texts.last().unwrap(), "  Reviews Completed   2 total (2 week streak)");
}

#[test]
fn summary_week_compares_day_numbers() {
    let count = |events: Vec<CalendarEvent>, today: i32| -> String {
        let lines = build_summary_lines(
            &empty_profile(), &vec![], &vec![], &empty_vision(), &vec![], &vec![], &vec![], &vec![],
            &events, &vec![], &WeeklyBoard::default(), today,
        );
        lines.iter().map(|l| l.0.clone()).find(|t| t.starts_with("  This week")).unwrap()
    };
    // Day numbers YYYYMMDD from today to today + 7: 01/30 counts, 02/02 does not.
    let events = vec![event(2024, 1, 30, "Dentist"), event(2024, 2, 2, "Flight")];
    assert_eq!(count(events, 20240128), "  This week           1 event");
    let events = vec![event(2024, 3, 3, "a"), event(2024, 3, 10, "b"), event(2024, 3, 11, "c"), event(2024, 3, 2, "d")];
    assert_eq!(count(events, 20240303), "  This week           2 events");
}

#[test]
fn summary_screen_without_boards() {
    let lines = build_summary_lines(
        &empty_profile(), &vec![], &vec![], &empty_vision(), &vec![], &vec![], &vec![], &vec![],
        &vec![], &vec![], &WeeklyBoard::default(), 20250106,
    );
    assert_eq!(lines.last().unwrap().0, "  Latest Score        no boards yet");
    assert_eq!(lines.last().unwrap().1, Tone::Dim);
}

#[test]
fn plain_text_summary() {
    let mut profile = empty_profile();
    profile.purpose = "Be kind".to_string();
    let events = vec![event(2025, 1, 6, "Dentist"), event(2025, 1, 9, "Trip"), event(2024, 12, 1, "Past")];
    let acc = Some(AccountabilityNote {
        date: "2025-01-06".to_string(),
        pattern: "p".to_string(),
        challenge: "c".to_string(),
    });
    let text = summary_text(
        &profile,
        &empty_vision(),
        &vec![],
        &vec![],
        &vec![project("P", &["[>] go"])],
        &strings(&["call"]),
        &events,
        &vec![],
        &vec![],
        &acc,
        20250106,
    );
    let expected = "## Purpose\n\n> Be kind\n\n\
## Goals (0)\n\nNo active goals\n\n\
## Projects (1)\n\n- P \u{2192} ???\n  - [>] go\n\n\
## Upcoming\n\n- **2025-01-06** Dentist\n- 2025-01-09 Trip\n\n\
## Next Actions (1)\n\n- [>] P \u{2192} go\n\n\
## Accountability (from 2025-01-06)\n\n**Pattern to Watch:**\n- p\n\n**One Challenge:**\n- c\n\n\
## Inbox (1)\n\n- [ ] call\n\n";
    assert_eq!(text, expected);
}
