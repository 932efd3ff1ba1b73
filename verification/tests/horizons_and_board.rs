use gtd_cli::board::{load_weekly_board, parse_markdown_board, render_markdown_board, WeeklyBoard};
use gtd_cli::calendar::{calendar_fits, day_number, day_number_checked, event_number, parse_calendar, CalendarEvent};
use gtd_cli::horizons::{
    _render_vision_md, goals_md_readable, load_areas, load_goals, load_profile, load_vision,
    parse_areas_md, parse_goals_md, parse_profile_md, parse_vision_md, GoalStatus, Vision, VisionArea,
};
use gtd_cli::projects::{
    load_completed_projects, load_md_list_with_status, load_next_actions, load_projects,
    projects_md_readable, render_projects, render_projects_with_completed, Project, ProjectStatus,
};
use gtd_cli::triggers::{parse_trigger_list, TriggerWalk};
use gtd_cli::ui::Key;

#[test]
fn profile_sections() {
    let md = "# Purpose\n\n## Identity\n- Name: Ada\n- Purpose: Build things\n\n## Core Values\n- Honesty\n- Craft\n\n## Roles\n- Parent\n";
    let p = parse_profile_md(md);
    assert_eq!(p.name, "Ada");
    assert_eq!(p.purpose, "Build things");
    assert_eq!(p.core_values, vec!["Honesty".to_string(), "Craft".to_string()]);
    assert_eq!(p.roles, vec!["Parent".to_string()]);
}

#[test]
fn profile_missing_file_is_empty() {
    let p = load_profile(None);
    assert_eq!(p.name, "");
    assert!(p.core_values.is_empty());
}

#[test]
fn goal_status_names_round_trip() {
    for s in [GoalStatus::Active, GoalStatus::Completed, GoalStatus::Deferred, GoalStatus::Dropped] {
        assert_eq!(GoalStatus::from_str(s._as_str()), s);
    }
    assert_eq!(GoalStatus::from_str("COMPLETED"), GoalStatus::Completed);
    assert_eq!(GoalStatus::from_str("whatever"), GoalStatus::Active);
}

#[test]
fn goals_with_sections_and_comments() {
    let md = "# Goals\n## Active\n- Run a marathon <!-- category:health target:2025-10-01 -->\n- Learn Rust\n<!-- category:craft -->\n## Completed\n- Ship v1\n";
    assert!(goals_md_readable(md));
    let gs = parse_goals_md(md);
    assert_eq!(gs.len(), 3);
    assert_eq!(gs[0].text, "Run a marathon");
    assert_eq!(gs[0].category, "health");
    assert_eq!(gs[0].target_date, Some("2025-10-01".to_string()));
    assert_eq!(gs[0].status, GoalStatus::Active);
    assert_eq!(gs[1].category, "craft");
    assert_eq!(gs[2].status, GoalStatus::Completed);
    assert!(load_goals(None).is_empty());
}

#[test]
fn goal_comment_in_spaced_form() {
    let gs = parse_goals_md("- Run <!-- category: health target: 2025-10-01 -->\n");
    assert_eq!(gs.len(), 1);
    assert_eq!(gs[0].text, "Run");
    assert_eq!(gs[0].category, "health");
    assert_eq!(gs[0].target_date, Some("2025-10-01".to_string()));
    assert_eq!(gs[0].status, GoalStatus::Active);
    let gs = parse_goals_md("- Read\n<!-- category: learning target: -->\n");
    assert_eq!(gs[0].category, "learning");
    assert_eq!(gs[0].target_date, Some("".to_string()));
    let gs = parse_goals_md("- Swim <!-- category: target: 2026-01-01 -->\n");
    assert_eq!(gs[0].category, "");
    assert_eq!(gs[0].target_date, Some("2026-01-01".to_string()));
}

#[test]
fn areas_with_descriptions() {
    let md = "# Areas\n> intro\n## Health\n*Stay fit*\n- Sleep 8h\n## Work\n- Ship\n";
    let areas = parse_areas_md(md);
    assert_eq!(areas.len(), 2);
    assert_eq!(areas[0].name, "Health");
    assert_eq!(areas[0].description, "Stay fit");
    assert_eq!(areas[0].standards, vec!["Sleep 8h".to_string()]);
    assert_eq!(areas[1].description, "");
    assert!(load_areas(None).is_empty());
}

#[test]
fn vision_read_and_written() {
    let md = "# 5 years\n\n## Family\nA calm home\n\n### Picture of Success\n- Dinners together\n- Trips\n\n";
    let v = parse_vision_md(md);
    assert_eq!(v.time_horizon, "5 years");
    assert_eq!(v.areas.len(), 1);
    assert_eq!(v.areas[0].category, "Family");
    assert_eq!(v.areas[0].vision_text, "A calm home");
    assert_eq!(v.areas[0].picture_of_success, vec!["Dinners together".to_string(), "Trips".to_string()]);
    assert_eq!(_render_vision_md(&v), md);
    let d = load_vision(None);
    assert_eq!(d.time_horizon, "3 years");
}

#[test]
fn vision_render_of_built_value() {
    let v = Vision {
        time_horizon: "3 years".to_string(),
        areas: vec![VisionArea {
            category: "Work".to_string(),
            vision_text: "Lead".to_string(),
            picture_of_success: vec![],
        }],
    };
    assert_eq!(_render_vision_md(&v), "# 3 years\n\n## Work\nLead\n\n");
}

#[test]
fn vision_written_then_read_back() {
    let v = Vision {
        time_horizon: "10 years".to_string(),
        areas: vec![
            VisionArea {
                category: "Health".to_string(),
                vision_text: "Strong and rested".to_string(),
                picture_of_success: vec!["Run a marathon".to_string(), "#1 habit: sleep".to_string()],
            },
            VisionArea {
                category: "Work".to_string(),
                vision_text: "Lead a small team".to_string(),
                picture_of_success: vec![],
            },
        ],
    };
    let back = parse_vision_md(&_render_vision_md(&v));
    assert_eq!(back.time_horizon, v.time_horizon);
    assert_eq!(back.areas.len(), 2);
    for i in 0..2 {
        assert_eq!(back.areas[i].category, v.areas[i].category);
        assert_eq!(back.areas[i].vision_text, v.areas[i].vision_text);
        assert_eq!(back.areas[i].picture_of_success, v.areas[i].picture_of_success);
    }
}

#[test]
fn board_round_trip_on_a_board() {
    let board = WeeklyBoard {
        score: Some(7),
        score_note: Some("solid week".to_string()),
        partner_notes: Some("Keep going.\nSleep more.".to_string()),
        accomplishments: vec!["Shipped".to_string()],
        struggles: vec!["Email".to_string(), "Focus".to_string()],
    };
    let md = render_markdown_board(&board, "2025-01-06");
    assert!(md.starts_with("# Weekly Board \u{2014} 2025-01-06\n\n## Partner Notes\nScore: 7/10 \u{2014} solid week\n"));
    let back = parse_markdown_board(&md);
    assert_eq!(back.score, Some(7));
    assert_eq!(back.score_note, Some("solid week".to_string()));
    assert_eq!(back.partner_notes, Some("Keep going.\nSleep more.".to_string()));
    assert_eq!(back.accomplishments, vec!["Shipped".to_string()]);
    assert_eq!(back.struggles, vec!["Email".to_string(), "Focus".to_string()]);
}

#[test]
fn board_without_score_renders_empty_lists() {
    let board = WeeklyBoard::default();
    let md = render_markdown_board(&board, "d");
    assert_eq!(md, "# Weekly Board \u{2014} d\n\n## Partner Notes\n\n## Accomplishments\n\n\n## Struggles\n\n\n");
    let missing = load_weekly_board(None);
    assert_eq!(missing.score, None);
    assert!(missing.accomplishments.is_empty());
}

#[test]
fn board_score_with_hyphen_note() {
    let b = parse_markdown_board("## Partner Notes\nScore: 9/10 - great\nNice.\n");
    assert_eq!(b.score, Some(9));
    assert_eq!(b.score_note, Some("great".to_string()));
    assert_eq!(b.partner_notes, Some("Nice.".to_string()));
}

#[test]
fn projects_read_and_written() {
    let md = "## Garden\n<!-- goal: home -->\n- [>] Buy seeds\n- Dig\n\n## Completed\n## Old thing\n- done\n";
    assert!(projects_md_readable(md));
    let (active, completed) = load_md_list_with_status(md);
    assert_eq!(active.len(), 1);
    assert_eq!(active[0].name, "Garden");
    assert_eq!(active[0].goal, Some("".to_string()));
    assert_eq!(active[0].items, vec!["[>] Buy seeds".to_string(), "Dig".to_string()]);
    assert_eq!(completed.len(), 1);
    assert_eq!(completed[0].status, ProjectStatus::Completed);
    assert_eq!(load_completed_projects(md).len(), 1);
    let plain = vec![Project {
        name: "A".to_string(),
        items: vec!["x".to_string()],
        goal: None,
        status: ProjectStatus::Active,
    }];
    let text = render_projects(&plain);
    assert_eq!(text, "## A\n- x\n\n");
    let back = load_projects(&text);
    assert_eq!(back.len(), 1);
    assert_eq!(back[0].name, "A");
    assert_eq!(back[0].items, vec!["x".to_string()]);
    let with_done = render_projects_with_completed(&plain, &plain);
    assert_eq!(with_done, "## A\n- x\n\n## Completed\n## A\n- x\n\n");
}

#[test]
fn completed_section_round_trip() {
    let active = vec![
        Project { name: "Garden".to_string(), items: vec!["[>] Buy seeds".to_string()], goal: Some("home".to_string()), status: ProjectStatus::Active },
        Project { name: "Taxes".to_string(), items: vec![], goal: None, status: ProjectStatus::Active },
    ];
    let completed = vec![Project { name: "Old thing".to_string(), items: vec!["done".to_string()], goal: Some("x".to_string()), status: ProjectStatus::Active }];
    let text = render_projects_with_completed(&active, &completed);
    assert!(projects_md_readable(&text));
    let (a, c) = load_md_list_with_status(&text);
    assert_eq!(a.len(), 2);
    assert_eq!(a[0].name, "Garden");
    assert_eq!(a[0].goal, Some("".to_string()));
    assert_eq!(a[0].items, vec!["[>] Buy seeds".to_string()]);
    assert_eq!(a[1].goal, None);
    assert_eq!(c.len(), 1);
    assert_eq!(c[0].name, "Old thing");
    assert_eq!(c[0].items, vec!["done".to_string()]);
    assert_eq!(c[0].goal, None);
    assert_eq!(c[0].status, ProjectStatus::Completed);
    assert_eq!(load_completed_projects(&text).len(), 1);
}

#[test]
fn completed_list_reads_back_whatever_the_active_goals() {
    let active = vec![
        Project { name: "A".to_string(), items: vec!["x".to_string()], goal: Some("two words".to_string()), status: ProjectStatus::Active },
        Project { name: "B".to_string(), items: vec![], goal: Some("goal:inner".to_string()), status: ProjectStatus::Active },
    ];
    let completed = vec![
        Project { name: "Done one".to_string(), items: vec!["a".to_string(), "b".to_string()], goal: None, status: ProjectStatus::Completed },
        Project { name: "Done two".to_string(), items: vec![], goal: Some("g".to_string()), status: ProjectStatus::Active },
    ];
    let text = render_projects_with_completed(&active, &completed);
    let (a, c) = load_md_list_with_status(&text);
    assert_eq!(a[0].goal, Some("".to_string()));
    assert_eq!(a[1].goal, Some("inner".to_string()));
    assert_eq!(c.len(), 2);
    assert_eq!((c[0].name.as_str(), c[0].items.clone(), c[0].goal.clone()), ("Done one", vec!["a".to_string(), "b".to_string()], None));
    assert_eq!((c[1].name.as_str(), c[1].goal.clone(), c[1].status), ("Done two", None, ProjectStatus::Completed));
}

#[test]
fn next_actions_take_the_first_mark() {
    let ps = load_projects("## P\n- a\n- [>] b\n- [>] c\n## Q\n- none\n");
    let na = load_next_actions(&ps);
    assert_eq!(na.len(), 1);
    assert_eq!(na[0].project_name, "P");
    assert_eq!(na[0].action, "b");
}

#[test]
fn calendar_years_and_events() {
    let md = "## 2025\n- 01/06 Dentist at 9\n- 13/xx bad\n- 02/14\n## 2026\n- 3/1 Trip\n";
    let es = parse_calendar(md, 2024);
    assert_eq!(es.len(), 2);
    assert_eq!((es[0].year, es[0].month, es[0].day), (2025, 1, 6));
    assert_eq!(es[0].description, "Dentist at 9");
    assert_eq!((es[1].year, es[1].month, es[1].day), (2026, 3, 1));
    assert!(calendar_fits(&es));
    assert_eq!(day_number(2025, 1, 6), 20250106);
    assert_eq!(event_number(&es[1]), 20260301);
    let big = vec![CalendarEvent { year: i32::MAX, month: 1, day: 1, description: String::new() }];
    assert!(!calendar_fits(&big));
}

#[test]
fn trigger_list_sections() {
    let md = "# Work\n- Projects\n* Meetings\n1. Email\n## Home\n2) Repairs\n";
    let (triggers, sections) = parse_trigger_list(md).unwrap();
    assert_eq!(triggers.len(), 4);
    assert_eq!(triggers[0].section, "Work");
    assert_eq!(triggers[2].text, "Email");
    assert_eq!(triggers[3].section, "Home");
    assert_eq!(triggers[3].text, "Repairs");
    assert_eq!(sections.len(), 2);
    assert!(parse_trigger_list("# Empty\n").is_none());
}

#[test]
fn trigger_walk_keys() {
    let mut w = TriggerWalk::new();
    assert!(!w.key(Key::Char(' '), 2));
    assert_eq!(w.index, 1);
    assert!(!w.key(Key::Enter, 2));
    assert!(w.finished);
    assert!(!w.key(Key::Char('b'), 2));
    assert_eq!((w.index, w.finished), (1, false));
    assert!(!w.key(Key::Up, 2));
    assert_eq!(w.index, 0);
    assert!(!w.key(Key::Char('j'), 2));
    assert_eq!(w.index, 0);
    assert!(!w.key(Key::Char('l'), 2));
    assert_eq!(w.index, 1);
    assert!(!w.key(Key::Char('b'), 2));
    assert_eq!((w.index, w.finished), (0, false));
    assert!(w.key(Key::Char('q'), 2));
}

#[test]
fn trigger_numbered_items_with_dot_or_paren() {
    let md = "## Family\n1) Call mom.\n12. Plan trip. Book hotel\nCall 1) nobody\n";
    let (triggers, sections) = parse_trigger_list(md).unwrap();
    assert_eq!(triggers.len(), 2);
    assert_eq!(triggers[0].section, "Family");
    assert_eq!(triggers[0].text, "Call mom.");
    assert_eq!(triggers[1].text, "Plan trip. Book hotel");
    assert_eq!(sections, vec![("Family".to_string(), vec!["Call mom.".to_string(), "Plan trip. Book hotel".to_string()])]);
}

#[test]
fn day_number_checked_in_and_out_of_range() {
    assert_eq!(day_number_checked(2025, 1, 15), Some(20250115));
    assert_eq!(day_number_checked(-5, 12, 31), Some(-48769));
    assert_eq!(day_number_checked(300000, 1, 1), None);
    assert_eq!(day_number_checked(-300000, 1, 1), None);
    assert_eq!(day_number_checked(214748, 36, 47), Some(i32::MAX));
    assert_eq!(day_number_checked(214748, 36, 48), None);
}
