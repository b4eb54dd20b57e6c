use azdo::workitem::{
    html_to_text, normalize_tags, render, render_comments, sort_chrono, summary_lines, Comment,
    Fields, Identity, WorkItem,
};

fn who(name: &str) -> Option<Identity> {
    Some(Identity::Ref { display_name: name.to_owned() })
}

fn full() -> WorkItem {
    WorkItem {
        id: 12345,
        fields: Fields {
            work_item_type: "Bug".to_owned(),
            state: "Active".to_owned(),
            title: "Customs declaration form rejects valid TIN".to_owned(),
            assigned_to: who("Ivan Petrov"),
            changed_date: Some("2026-05-14T10:23:00Z".to_owned()),
            tags: Some("customs; urgent".to_owned()),
            description: Some(
                "<div>The form rejects a valid TIN.</div><div>Steps: open the form, enter a TIN.</div>"
                    .to_owned(),
            ),
        },
    }
}

fn minimal(id: u64, title: &str, assigned_to: Option<Identity>) -> WorkItem {
    WorkItem {
        id,
        fields: Fields {
            work_item_type: "Task".to_owned(),
            state: "New".to_owned(),
            title: title.to_owned(),
            assigned_to,
            changed_date: None,
            tags: None,
            description: None,
        },
    }
}

fn comment(id: u64, text: &str, by: Option<Identity>, date: Option<&str>) -> Comment {
    Comment {
        id,
        text: text.to_owned(),
        created_by: by,
        created_date: date.map(str::to_owned),
    }
}

#[test]
fn renders_full_work_item() {
    let out = render(&full()).expect("render must succeed");
    let expected = "#12345  [Bug]  State: Active\n\
         Title:    Customs declaration form rejects valid TIN\n\
         Assignee: Ivan Petrov\n\
         Changed:  2026-05-14T10:23:00Z\n\
         Tags:     customs, urgent\n\
         \n\
         Description:\n\
         The form rejects a valid TIN.\n\
         Steps: open the form, enter a TIN.";
    assert_eq!(out, expected, "rendered block drifted from snapshot");
}

#[test]
fn renders_minimal_work_item_without_optionals() {
    let out = render(&minimal(7, "Wire up the thing", None)).expect("render must succeed");
    let expected = "#7  [Task]  State: New\n\
         Title:    Wire up the thing\n\
         Assignee: Unassigned\n\
         \n\
         Description:\n\
         (none)";
    assert_eq!(out, expected, "minimal item must omit optional lines");
}

#[test]
fn assigned_to_accepts_bare_string() {
    let item = minimal(
        9,
        "Legacy identity shape",
        Some(Identity::Raw("Maria Ivanova".to_owned())),
    );
    let out = render(&item).expect("render must succeed");
    assert!(
        out.contains("Assignee: Maria Ivanova"),
        "bare-string identity not handled: {out}",
    );
}

#[test]
fn renders_comments_sorted_chronologically() {
    let mut list = vec![
        comment(
            11,
            "<div>Second, posted later.</div>",
            who("Maria Ivanova"),
            Some("2026-05-14T11:30:00Z"),
        ),
        comment(
            10,
            "<div>First, posted earlier.</div>",
            who("Ivan Petrov"),
            Some("2026-05-13T09:00:00Z"),
        ),
    ];
    sort_chrono(&mut list);
    let out = render_comments(&list).expect("render must succeed");
    let expected = "Comments (2):\n\
         \n\
         [2026-05-13T09:00:00Z] Ivan Petrov\n\
         First, posted earlier.\n\
         \n\
         [2026-05-14T11:30:00Z] Maria Ivanova\n\
         Second, posted later.";
    assert_eq!(out, expected, "comments section drifted from snapshot");
}

#[test]
fn empty_comments_render_none() {
    let out = render_comments(&[]).expect("render must succeed");
    assert_eq!(out, "Comments: (none)");
}

#[test]
fn comment_author_falls_back_when_missing() {
    let list = vec![comment(1, "<div>orphan</div>", None, Some("2026-05-15T08:00:00Z"))];
    let out = render_comments(&list).expect("render must succeed");
    assert!(
        out.contains("[2026-05-15T08:00:00Z] Unknown"),
        "missing author not handled: {out}",
    );
}

#[test]
fn tags_are_trimmed_and_blank_ones_dropped() {
    assert_eq!(normalize_tags("customs; urgent"), "customs, urgent");
    assert_eq!(normalize_tags(" a ;; b ; "), "a, b");
    assert_eq!(normalize_tags(" ; "), "");
}

#[test]
fn blank_optionals_are_left_out_of_the_summary() {
    let mut item = minimal(3, "T", Some(Identity::Ref { display_name: "   ".to_owned() }));
    item.fields.changed_date = Some("  ".to_owned());
    item.fields.tags = Some(" ; ".to_owned());
    assert_eq!(
        summary_lines(&item),
        vec!["#3  [Task]  State: New", "Title:    T", "Assignee: Unassigned"],
    );
}

#[test]
fn sort_is_stable_for_equal_and_missing_dates() {
    let mut list = vec![
        comment(1, "a", None, Some("2026-01-02")),
        comment(2, "b", None, None),
        comment(3, "c", None, Some("2026-01-01")),
        comment(4, "d", None, None),
        comment(5, "e", None, Some("2026-01-01")),
    ];
    sort_chrono(&mut list);
    let ids: Vec<u64> = list.iter().map(|c| c.id).collect();
    assert_eq!(ids, vec![2, 4, 3, 5, 1]);
}

#[test]
fn html_is_flattened_to_text() {
    let out = html_to_text("<p>Hello <b>world</b></p>").expect("html must render");
    assert!(out.contains("Hello"), "got {out:?}");
    assert!(out.contains("world"), "got {out:?}");
    assert!(!out.contains('<'), "tags must be gone: {out:?}");
    assert!(!out.ends_with('\n'), "trailing newlines are trimmed: {out:?}");
}

#[test]
fn comments_with_equal_keys_keep_their_order() {
    let mut list = vec![
        comment(5, "first", None, Some("2026-01-01")),
        comment(1, "x", None, Some("2026-01-02")),
        comment(5, "second", None, Some("2026-01-01")),
        comment(5, "third", None, Some("2026-01-01")),
    ];
    sort_chrono(&mut list);
    let texts: Vec<&str> = list.iter().map(|c| c.text.as_str()).collect();
    assert_eq!(texts, vec!["first", "second", "third", "x"]);
}
