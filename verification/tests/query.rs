use azdo::query::{batch_chunks, batch_fields, render_table, rows, widths, wiql_text, BATCH_MAX};
use azdo::workitem::{Fields, WorkItem};

fn item(id: u64, ty: &str, state: &str, title: &str) -> WorkItem {
    WorkItem {
        id,
        fields: Fields {
            work_item_type: ty.to_owned(),
            state: state.to_owned(),
            title: title.to_owned(),
            assigned_to: None,
            changed_date: None,
            tags: None,
            description: None,
        },
    }
}

fn fixture() -> Vec<WorkItem> {
    vec![
        item(7, "Bug", "Active", "Short id, long type alignment check"),
        item(123456, "Task", "New", "Wide id row"),
    ]
}

#[test]
fn empty_list_has_friendly_message() {
    assert_eq!(
        render_table(&[]),
        "No open work items.",
        "empty result must not print an empty table",
    );
}

#[test]
fn table_is_column_aligned() {
    let items = fixture();
    let table = render_table(&items);
    let mut lines = table.lines();

    let header = lines.next().unwrap_or_else(|| panic!("missing header"));
    assert!(
        header.starts_with("ID    "),
        "id column must be padded to the widest id (123456): {header:?}",
    );
    assert!(
        header.contains("Type") && header.contains("State") && header.contains("Title"),
        "header must name every column: {header:?}",
    );

    let data = rows(&items);
    assert_eq!(data.len(), 2, "one row per work item");
    assert!(
        data.iter()
            .all(|r| r.starts_with("7     ") || r.starts_with("123456")),
        "ids must be left-aligned in a fixed-width column: {data:?}",
    );
    let first = data.first().unwrap_or_else(|| panic!("missing row 0"));
    assert!(
        first.contains("Bug") && first.ends_with("alignment check"),
        "row keeps type and full title: {first:?}",
    );
}

#[test]
fn widths_cover_header_and_data() {
    assert_eq!(widths(&[]), (2, 4, 5));
    assert_eq!(widths(&fixture()), (6, 4, 6));
}

#[test]
fn table_snapshot() {
    assert_eq!(
        render_table(&fixture()),
        "ID      Type  State   Title\n\
         7       Bug   Active  Short id, long type alignment check\n\
         123456  Task  New     Wide id row",
    );
}

#[test]
fn batches_are_chunked_in_order() {
    assert_eq!(BATCH_MAX, 200);
    let ids: Vec<u64> = (1..=450).collect();
    let chunks = batch_chunks(&ids);
    assert_eq!(chunks.len(), 3);
    assert_eq!(chunks[0].len(), 200);
    assert_eq!(chunks[1].len(), 200);
    assert_eq!(chunks[2], (401..=450).collect::<Vec<u64>>());
    assert_eq!(chunks.concat(), ids);
    assert!(batch_chunks(&[]).is_empty());
}

#[test]
fn query_text_and_fields() {
    assert!(wiql_text().starts_with("SELECT [System.Id] FROM WorkItems WHERE [System.AssignedTo] = @Me"));
    assert_eq!(
        batch_fields(),
        vec!["System.Id", "System.WorkItemType", "System.State", "System.Title"],
    );
}
