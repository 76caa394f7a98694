use outlook_email::error::AppError;
use outlook_email::markdown::{
    check_markdown_export, check_markdown_file_path, markdown_category_relative_path,
    markdown_descendant_ids, markdown_document_file_name, markdown_export_layout,
    markdown_export_root, normalize_markdown_source_path, safe_markdown_file_name,
    validate_markdown_category_name, validate_markdown_content, validate_markdown_title,
    MarkdownCategory, MarkdownDocument,
};

fn cat(id: i64, name: &str, parent: Option<i64>) -> MarkdownCategory {
    MarkdownCategory { id, name: name.to_string(), parent_id: parent }
}

fn doc(id: i64, category: Option<i64>, title: &str) -> MarkdownDocument {
    MarkdownDocument { id, category_id: category, title: title.to_string(), content: format!("# {title}") }
}

fn message(err: AppError) -> String {
    match err {
        AppError::InvalidInput(m) | AppError::Internal(m) => m,
        other => panic!("unexpected {:?}", other),
    }
}

#[test]
fn markdown_file_names() {
    assert_eq!(safe_markdown_file_name("  Notes: a/b?  "), "Notes- a-b-");
    assert_eq!(safe_markdown_file_name("draft. . "), "draft");
    assert_eq!(safe_markdown_file_name(" ... "), "document");
}

#[test]
fn markdown_names_titles_and_contents() {
    assert_eq!(validate_markdown_category_name("  Work ").expect("name"), "Work");
    assert_eq!(message(validate_markdown_category_name(" ").unwrap_err()), "markdown category name is required");
    assert_eq!(message(validate_markdown_category_name(&"x".repeat(81)).unwrap_err()), "markdown category name is too long");
    assert!(validate_markdown_category_name(&"长".repeat(80)).is_ok());
    assert_eq!(message(validate_markdown_title(&"t".repeat(201)).unwrap_err()), "markdown document title is too long");
    assert_eq!(validate_markdown_content("body".to_string()).expect("content"), "body");
    assert_eq!(normalize_markdown_source_path(Some("  /tmp/a.md ".to_string())), Some("/tmp/a.md".to_string()));
    assert_eq!(normalize_markdown_source_path(Some("   ".to_string())), None);
    assert_eq!(normalize_markdown_source_path(None), None);
}

#[test]
fn markdown_path_checks() {
    assert!(check_markdown_file_path("/a/b.MD", true, Some("MD".to_string())).is_ok());
    assert_eq!(message(check_markdown_file_path("/a/b.txt", true, Some("txt".to_string())).unwrap_err()), "only .md and .markdown files are supported");
    assert_eq!(message(check_markdown_file_path(" ", true, None).unwrap_err()), "markdown file path is required");
    assert!(check_markdown_export(true, Some("JPEG".to_string()), 10).is_ok());
    assert_eq!(message(check_markdown_export(false, None, 0).unwrap_err()), "markdown export path is required");
    assert_eq!(message(check_markdown_export(true, Some("gif".to_string()), 0).unwrap_err()), "markdown export must be HTML, PDF, PNG, or JPEG");
    assert_eq!(message(check_markdown_export(true, Some("pdf".to_string()), 52428801).unwrap_err()), "markdown export exceeds the 50 MB limit");
}

#[test]
fn relative_paths_walk_up_to_the_root() {
    let cats = vec![cat(1, "Root", None), cat(2, "A", Some(1)), cat(3, "B/C", Some(2))];
    assert_eq!(markdown_category_relative_path(3, 1, &cats).expect("path"), vec!["A".to_string(), "B-C".to_string()]);
    assert!(markdown_category_relative_path(1, 1, &cats).expect("root").is_empty());
    assert_eq!(message(markdown_category_relative_path(9, 1, &cats).unwrap_err()), "markdown folder tree is incomplete");
    assert_eq!(message(markdown_category_relative_path(1, 3, &cats).unwrap_err()), "markdown folder is outside the export tree");
    let cyclic = vec![cat(1, "x", Some(2)), cat(2, "y", Some(1))];
    assert_eq!(message(markdown_category_relative_path(1, 5, &cyclic).unwrap_err()), "markdown folder tree contains a cycle");
}

#[test]
fn descendants_include_every_level() {
    let cats = vec![cat(1, "Root", None), cat(3, "B", Some(2)), cat(2, "A", Some(1)), cat(4, "Other", None)];
    let mut ids = markdown_descendant_ids(&cats, 1);
    ids.sort();
    assert_eq!(ids, vec![1, 2, 3]);
}

#[test]
fn export_layout_files_documents_by_folder() {
    let cats = vec![cat(1, "Root", None), cat(2, "A", Some(1)), cat(4, "Other", None)];
    let docs = vec![doc(10, Some(2), "Plan: Q1"), doc(11, Some(4), "Elsewhere"), doc(12, None, "Loose"), doc(13, Some(1), "Top")];
    assert_eq!(markdown_export_root(&cats, 1).expect("root"), "Root");
    assert_eq!(message(markdown_export_root(&cats, 9).unwrap_err()), "markdown folder not found");
    let layout = markdown_export_layout(&cats, &docs, 1).expect("layout");
    assert_eq!(layout.root_name, "Root");
    assert_eq!(layout.folders, vec![Vec::<String>::new(), vec!["A".to_string()]]);
    assert_eq!(layout.files.len(), 2);
    assert_eq!(layout.files[0].folder, vec!["A".to_string()]);
    assert_eq!(layout.files[0].base_name, "Plan- Q1");
    assert_eq!(layout.files[0].document_id, 10);
    assert_eq!(layout.files[1].folder, Vec::<String>::new());
    assert_eq!(layout.files[1].content, "# Top");
    assert_eq!(markdown_document_file_name("Plan", 10, false), "Plan.md");
    assert_eq!(markdown_document_file_name("Plan", 10, true), "Plan (10).md");
}
