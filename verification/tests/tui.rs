use azdo::error::AzdoError;
use azdo::tui::{
    build_app, footer_cursor_x, line_count, max_scroll, open_in_browser, pane_title, Action, App,
    Key, Pane, PickAction, Picker,
};
use azdo::workitem::{Comment, Fields, Identity, WorkItem};

fn fixture_item() -> WorkItem {
    WorkItem {
        id: 12345,
        fields: Fields {
            work_item_type: "Bug".to_owned(),
            state: "Active".to_owned(),
            title: "Customs declaration form rejects valid TIN".to_owned(),
            assigned_to: Some(Identity::Ref { display_name: "Ivan Petrov".to_owned() }),
            changed_date: Some("2026-05-14T10:23:00Z".to_owned()),
            tags: Some("customs; urgent".to_owned()),
            description: Some("<div>The form rejects a valid TIN.</div>".to_owned()),
        },
    }
}

fn fixture_comments() -> Vec<Comment> {
    vec![Comment {
        id: 1,
        text: "<div>Reproduced on staging.</div>".to_owned(),
        created_by: Some(Identity::Ref { display_name: "Maria Ivanova".to_owned() }),
        created_date: Some("2026-05-14T11:30:00Z".to_owned()),
    }]
}

fn fixture_app() -> App {
    build_app(
        &fixture_item(),
        &fixture_comments(),
        "http://azdo.local/tfs/Col/Proj/_workitems/edit/12345".to_owned(),
    )
    .expect("build_app must succeed")
}

#[test]
fn scroll_math_saturates_and_clamps() {
    assert_eq!(max_scroll(10, 4), 6, "in-range max");
    assert_eq!(max_scroll(3, 10), 0, "viewport larger than content");

    let mut app = fixture_app();
    app.pane = Pane::Description;
    app.scroll_up();
    assert_eq!(app.desc_scroll, 0, "scroll up saturates at 0");
    app.scroll_down();
    assert_eq!(app.desc_scroll, 1, "scroll down advances");

    app.toggle_pane();
    assert_eq!(app.pane, Pane::Comments, "Tab switches pane");
    app.scroll_up();
    assert_eq!(app.comments_scroll, 0, "comments scroll saturates");
}

#[test]
fn comment_input_edits_renders_and_cancels() {
    let mut app = fixture_app();
    assert!(app.input.is_none(), "starts outside input mode");

    app.start_comment();
    assert_eq!(app.input.as_deref(), Some(""), "entry buffer opens empty");

    app.input_push('h');
    app.input_push('i');
    app.input_backspace();
    assert_eq!(app.input.as_deref(), Some("h"), "edits mutate the buffer");

    assert!(
        app.footer().contains("comment> h"),
        "prompt + buffer must show on the footer line: {}",
        app.footer(),
    );

    app.input_cancel();
    assert!(app.input.is_none(), "Esc leaves input mode");
    assert_eq!(app.status, "comment cancelled");
}

#[test]
fn fresh_view_of_the_fixture() {
    let app = fixture_app();
    assert_eq!(app.header, "#12345  [Bug]  State: Active");
    assert_eq!(
        app.meta,
        "Title:    Customs declaration form rejects valid TIN\n\
         Assignee: Ivan Petrov\n\
         Changed:  2026-05-14T10:23:00Z\n\
         Tags:     customs, urgent",
    );
    assert_eq!(app.meta_lines, 4);
    assert_eq!(app.description, "The form rejects a valid TIN.");
    assert_eq!(app.description_lines, 1);
    assert_eq!(
        app.comments,
        "Comments (1):\n\n[2026-05-14T11:30:00Z] Maria Ivanova\nReproduced on staging.",
    );
    assert_eq!(app.comments_lines, 4);
    assert_eq!(app.pane, Pane::Description);
    assert_eq!((app.desc_scroll, app.comments_scroll), (0, 0));
    assert_eq!(app.status, "ready");
    assert!(app.input.is_none());
    assert!(app.footer().starts_with("q quit  r refresh  c comment  o open  Tab switch  j/k scroll  |  ready"));
}

#[test]
fn line_counts_follow_str_lines() {
    assert_eq!(line_count(""), 0);
    assert_eq!(line_count("a"), 1);
    assert_eq!(line_count("a\n"), 1);
    assert_eq!(line_count("a\nb"), 2);
    assert_eq!(line_count("\n\n"), 2);
    assert_eq!(line_count(&"x\n".repeat(70000)), u16::MAX);
}

#[test]
fn keys_outside_the_entry_line() {
    let mut app = fixture_app();
    assert_eq!(app.handle_key(Key::Char('q')), Action::Quit);
    assert_eq!(app.handle_key(Key::Esc), Action::Quit);
    assert_eq!(app.handle_key(Key::Char('r')), Action::Refresh);
    assert_eq!(app.handle_key(Key::Char('o')), Action::OpenBrowser);
    assert_eq!(app.handle_key(Key::Char('j')), Action::Stay);
    assert_eq!(app.handle_key(Key::Down), Action::Stay);
    assert_eq!(app.desc_scroll, 2);
    assert_eq!(app.handle_key(Key::Up), Action::Stay);
    assert_eq!(app.desc_scroll, 1);
    assert_eq!(app.handle_key(Key::BackTab), Action::Stay);
    assert_eq!(app.pane, Pane::Comments);
    assert_eq!(app.handle_key(Key::Char('k')), Action::Stay);
    assert_eq!(app.comments_scroll, 0);
    assert_eq!(app.handle_key(Key::Char('x')), Action::Stay);
    assert_eq!(app.handle_key(Key::Enter), Action::Stay);
    assert!(app.input.is_none());
    assert_eq!(app.handle_key(Key::Char('c')), Action::Stay);
    assert_eq!(app.input.as_deref(), Some(""));
    assert_eq!(app.status, "comment: type, Enter to send, Esc to cancel");
}

#[test]
fn keys_on_the_entry_line() {
    let mut app = fixture_app();
    app.start_comment();
    assert_eq!(app.handle_key(Key::Char('q')), Action::Stay);
    assert_eq!(app.handle_key(Key::Char('k')), Action::Stay);
    assert_eq!(app.handle_key(Key::Backspace), Action::Stay);
    assert_eq!(app.handle_key(Key::Tab), Action::Stay);
    assert_eq!(app.pane, Pane::Description);
    assert_eq!(app.input.as_deref(), Some("q"));
    assert_eq!(app.handle_key(Key::Enter), Action::SubmitComment);
    assert_eq!(app.input.as_deref(), Some("q"));
    assert_eq!(app.handle_key(Key::Esc), Action::Stay);
    assert!(app.input.is_none());
    assert_eq!(app.status, "comment cancelled");
}

#[test]
fn taking_the_comment() {
    let mut app = fixture_app();
    assert_eq!(app.take_comment(), None);
    assert_eq!(app.status, "ready");

    app.start_comment();
    app.input_push(' ');
    assert_eq!(app.take_comment(), None);
    assert!(app.input.is_none());
    assert_eq!(app.status, "empty comment, not sent");

    app.start_comment();
    for ch in "  looks good ".chars() {
        app.input_push(ch);
    }
    assert_eq!(app.take_comment().as_deref(), Some("looks good"));
    assert!(app.input.is_none());
    app.comment_posted();
    assert_eq!(app.status, "comment posted");
    app.post_failed(&AzdoError::Http { status: 500, url: "u".to_owned(), body: "b".to_owned() });
    assert_eq!(app.status, "post failed: http error: 500 u\nb");
}

#[test]
fn refreshing_keeps_the_pane() {
    let mut app = fixture_app();
    app.toggle_pane();
    app.scroll_down();
    let mut item = fixture_item();
    item.fields.state = "Closed".to_owned();
    let fresh = build_app(&item, &[], "u2".to_owned()).expect("fresh view");
    app.refresh_with(fresh);
    assert_eq!(app.pane, Pane::Comments);
    assert_eq!(app.comments_scroll, 0);
    assert_eq!(app.header, "#12345  [Bug]  State: Closed");
    assert_eq!(app.comments, "Comments: (none)");
    assert_eq!(app.url, "u2");
    assert_eq!(app.status, "refreshed");
    app.refresh_failed(&AzdoError::Transport("down".to_owned()));
    assert_eq!(app.status, "refresh failed: transport error: down");
    assert_eq!(app.header, "#12345  [Bug]  State: Closed");
}

#[test]
fn clamping_keeps_offsets_in_range() {
    let mut app = fixture_app();
    app.desc_scroll = 9;
    app.comments_scroll = 9;
    app.clamp_scrolls(3, 4);
    assert_eq!(app.desc_scroll, 0);
    assert_eq!(app.comments_scroll, 2);
    app.desc_scroll = 0;
    app.clamp_scrolls(0, 100);
    assert_eq!(app.desc_scroll, 0);
    assert_eq!(app.comments_scroll, 0);
}

#[test]
fn pane_titles_cursor_and_browser_status() {
    assert_eq!(pane_title("Description", true), "Description [active]");
    assert_eq!(pane_title("Comments", false), "Comments");
    assert_eq!(footer_cursor_x(0, 40, "h"), 10);
    assert_eq!(footer_cursor_x(2, 10, "hello"), 11);
    assert_eq!(footer_cursor_x(5, 0, ""), 5);
    assert_eq!(footer_cursor_x(u16::MAX - 1, 5, "abc"), u16::MAX);
    assert_eq!(open_in_browser("http://x", &Ok(())), "opened in browser: http://x");
    assert_eq!(
        open_in_browser("http://x", &Err(AzdoError::Browser("no opener".to_owned()))),
        "could not open browser: browser error: no opener",
    );
}

#[test]
fn render_errors_surface_from_build_app() {
    let mut item = fixture_item();
    item.fields.description = Some("   ".to_owned());
    let app = build_app(&item, &[], String::new()).expect("blank description renders");
    assert_eq!(app.description, "(none)");
    assert_eq!(app.description_lines, 1);
}

#[test]
fn picker_moves_within_the_list() {
    let mut p = Picker::new(3);
    assert_eq!(p.handle_key(Key::Up), PickAction::Stay);
    assert_eq!(p.selected(), 0);
    assert_eq!(p.handle_key(Key::Char('j')), PickAction::Stay);
    assert_eq!(p.handle_key(Key::Down), PickAction::Stay);
    assert_eq!(p.handle_key(Key::Down), PickAction::Stay);
    assert_eq!(p.selected(), 2);
    assert_eq!(p.handle_key(Key::Char('k')), PickAction::Stay);
    assert_eq!(p.handle_key(Key::Enter), PickAction::Open(1));
    assert_eq!(p.handle_key(Key::Char('x')), PickAction::Stay);
    assert_eq!(p.handle_key(Key::Char('q')), PickAction::Quit);
    assert_eq!(p.handle_key(Key::Esc), PickAction::Quit);
    let mut empty = Picker::new(0);
    assert_eq!(empty.handle_key(Key::Down), PickAction::Stay);
    assert_eq!(empty.handle_key(Key::Enter), PickAction::Stay);
    assert_eq!(empty.selected(), 0);
}

#[test]
fn one_key_undoes_another() {
    let mut app = fixture_app();
    app.toggle_pane();
    app.toggle_pane();
    assert_eq!(app.pane, Pane::Description);
    app.scroll_down();
    app.scroll_up();
    assert_eq!((app.desc_scroll, app.comments_scroll), (0, 0));
    app.start_comment();
    app.input_push('a');
    app.input_push('b');
    app.input_backspace();
    assert_eq!(app.input.as_deref(), Some("a"));
    app.desc_scroll = u16::MAX;
    app.scroll_down();
    assert_eq!(app.desc_scroll, u16::MAX, "scrolling down saturates");
}

#[test]
fn picker_keeps_the_selection_on_screen() {
    let mut p = Picker::new(10);
    assert_eq!(p.scroll_offset(4), 0);
    for _ in 0..5 {
        p.handle_key(Key::Down);
    }
    assert_eq!(p.selected(), 5);
    assert_eq!(p.scroll_offset(4), 2);
    assert_eq!(p.scroll_offset(6), 0);
    assert_eq!(p.scroll_offset(0), 5);
}
