use text_document::parser_tools::{DocumentComment, DocumentComments};

fn comment(uid: &str, start: u32, end: u32) -> DocumentComment {
    DocumentComment {
        start,
        end,
        uid: uid.to_string(),
        author: "Author".to_string(),
        author_initials: "AU".to_string(),
        date: "2026-01-01T00:00:00Z".to_string(),
        resolved: false,
        body: "Body".to_string(),
        replies: vec![],
    }
}

#[test]
fn insert_keys_by_uid_and_replaces_on_reinsert() {
    let mut comments = DocumentComments::new();
    comments.insert(comment("a", 0, 5));
    comments.insert(comment("a", 10, 20));
    assert_eq!(comments.len(), 1);
    assert_eq!(comments.get("a").unwrap().start, 10);
}

#[test]
fn document_order_sorts_by_start_then_end_then_uid() {
    let comments = DocumentComments::from_iter(vec![
        comment("z", 5, 10),
        comment("a", 5, 10),
        comment("m", 0, 3),
    ]);
    let ordered: Vec<&str> = comments
        .in_document_order()
        .into_iter()
        .map(|c| c.uid.as_str())
        .collect();
    assert_eq!(ordered, vec!["m", "a", "z"]);
}

#[test]
fn iteration_order_is_stable_across_builds() {
    let build = || -> DocumentComments {
        DocumentComments::from_iter(
            ["z", "a", "m"]
                .into_iter()
                .map(|uid| comment(uid, 0, 1))
                .collect(),
        )
    };
    let first: Vec<String> = build().iter().into_iter().map(|c| c.uid.clone()).collect();
    let second: Vec<String> = build().iter().into_iter().map(|c| c.uid.clone()).collect();
    assert_eq!(first, second);
    assert_eq!(first, vec!["a", "m", "z"]);
}
