use siyuan_harness::doc_meta::DocLookup;
use siyuan_harness::doc_tree::{
    assemble, extract_icon, parent_path_of, strip_sy_suffix, subtree_sql, title_from_hpath, virtual_root_notebook,
    Depth, DocRow,
};
use siyuan_harness::ids::{BlockId, NotebookId};
use siyuan_harness::tree_md::render_agent_md;

fn nb() -> NotebookId {
    NotebookId::parse("20260501000000-nb00001").unwrap()
}

fn row(id: &str, hpath: &str, path: &str, sort: i64, ial: &str) -> DocRow {
    DocRow {
        id: id.to_string(),
        hpath: hpath.to_string(),
        path: path.to_string(),
        sort,
        created: "20260501090000".to_string(),
        updated: "20260501090000".to_string(),
        ial: ial.to_string(),
    }
}

fn nested_rows() -> Vec<DocRow> {
    vec![
        row(
            "20260501090000-doc0001",
            "/A",
            "/20260501090000-doc0001.sy",
            10,
            "{: id=\"20260501090000-doc0001\" icon=\":rocket:\"}",
        ),
        row(
            "20260501090000-doc0002",
            "/A/B",
            "/20260501090000-doc0001/20260501090000-doc0002.sy",
            20,
            "",
        ),
        row(
            "20260501090000-doc0003",
            "/A/B/C",
            "/20260501090000-doc0001/20260501090000-doc0002/20260501090000-doc0003.sy",
            30,
            "",
        ),
    ]
}

#[test]
fn title_from_hpath_handles_root() {
    assert_eq!(title_from_hpath("/"), "");
    assert_eq!(title_from_hpath("/A"), "A");
    assert_eq!(title_from_hpath("/A/B/C"), "C");
}

#[test]
fn extract_icon_pulls_quoted_value() {
    let ial = "{: id=\"20260501090000-doc0001\" icon=\":rocket:\"}";
    assert_eq!(extract_icon(ial), ":rocket:");
}

#[test]
fn extract_icon_returns_empty_when_absent() {
    let ial = "{: id=\"20260501090000-doc0001\"}";
    assert_eq!(extract_icon(ial), "");
}

#[test]
fn extract_icon_handles_empty_string() {
    assert_eq!(extract_icon(""), "");
}

#[test]
fn extract_icon_unterminated_is_empty() {
    assert_eq!(extract_icon("{: icon=\":x:"), "");
    assert_eq!(extract_icon("icon=\"a\" icon=\"b\""), "a");
}

#[test]
fn strip_sy_suffix_removes_dot_sy() {
    assert_eq!(strip_sy_suffix("/abc.sy"), "/abc");
    assert_eq!(strip_sy_suffix("/abc/def.sy"), "/abc/def");
}

#[test]
fn strip_sy_suffix_passes_through_when_missing() {
    assert_eq!(strip_sy_suffix("/abc"), "/abc");
}

#[test]
fn parent_path_of_top_level_is_empty() {
    assert_eq!(parent_path_of("/20260501090000-doc0001.sy"), "");
}

#[test]
fn parent_path_of_nested_strips_last_segment() {
    assert_eq!(
        parent_path_of("/20260501090000-doc0001/20260501090000-doc0002.sy"),
        "/20260501090000-doc0001"
    );
}

#[test]
fn parent_path_of_unrooted_is_empty() {
    assert_eq!(parent_path_of("abc.sy"), "");
}

#[test]
fn assemble_id_mode_depth_one_loads_immediate_child() {
    let rows = nested_rows();
    let tree = assemble(&rows, &nb(), "Inbox", Some("/20260501090000-doc0001.sy"), Depth::N(1));
    assert_eq!(tree.id, "20260501090000-doc0001");
    assert_eq!(tree.title, "A");
    assert!(tree.has_children);
    assert_eq!(tree.doc_count_recursive, 2);
    assert_eq!(tree.children.len(), 1, "depth=1 loads exactly one level");
    let b = &tree.children[0];
    assert_eq!(b.title, "B");
    assert!(b.has_children);
    assert!(b.children.is_empty());
    assert_eq!(b.doc_count_recursive, 1);
}

#[test]
fn assemble_id_mode_depth_two_loads_two_levels() {
    let rows = nested_rows();
    let tree = assemble(&rows, &nb(), "Inbox", Some("/20260501090000-doc0001.sy"), Depth::N(2));
    assert_eq!(tree.children.len(), 1);
    assert_eq!(tree.children[0].children.len(), 1);
    assert_eq!(tree.children[0].children[0].title, "C");
    assert!(tree.children[0].children[0].children.is_empty());
    assert!(!tree.children[0].children[0].has_children);
    assert_eq!(tree.children[0].children[0].doc_count_recursive, 0);
}

#[test]
fn assemble_id_mode_depth_all_loads_full_subtree() {
    let rows = nested_rows();
    let tree = assemble(&rows, &nb(), "Inbox", Some("/20260501090000-doc0001.sy"), Depth::All);
    assert_eq!(tree.children.len(), 1);
    assert_eq!(tree.children[0].children.len(), 1);
    assert_eq!(tree.children[0].children[0].title, "C");
}

#[test]
fn assemble_notebook_root_yields_virtual_root() {
    let rows = nested_rows();
    let tree = assemble(&rows, &nb(), "Inbox", None, Depth::N(1));
    assert_eq!(tree.id, "");
    assert_eq!(tree.title, "");
    assert_eq!(tree.hpath, "/");
    assert_eq!(tree.storage_path, "");
    assert_eq!(tree.notebook_id, "20260501000000-nb00001");
    assert_eq!(tree.notebook_name, "Inbox");
    assert!(tree.has_children);
    assert_eq!(tree.doc_count_recursive, 3);
    assert_eq!(tree.children.len(), 1);
    assert_eq!(tree.children[0].title, "A");
}

#[test]
fn assemble_propagates_sort_and_icon() {
    let rows = nested_rows();
    let tree = assemble(&rows, &nb(), "Inbox", Some("/20260501090000-doc0001.sy"), Depth::N(0));
    assert_eq!(tree.sort, 10);
    assert_eq!(tree.icon, ":rocket:");
}

#[test]
fn assemble_notebook_root_empty_notebook() {
    let rows: Vec<DocRow> = Vec::new();
    let tree = assemble(&rows, &nb(), "Inbox", None, Depth::N(1));
    assert!(!tree.has_children);
    assert_eq!(tree.doc_count_recursive, 0);
    assert!(tree.children.is_empty());
}

#[test]
fn assemble_orders_siblings_by_path_and_later_row_wins() {
    let rows = vec![
        row("20260501090000-doc0002", "/Z", "/20260501090000-doc0002.sy", 1, ""),
        row("20260501090000-doc0001", "/Y", "/20260501090000-doc0001.sy", 2, ""),
        row("20260501090000-doc0003", "/Y2", "/20260501090000-doc0001.sy", 3, ""),
    ];
    let tree = assemble(&rows, &nb(), "Inbox", None, Depth::All);
    assert_eq!(tree.children.len(), 2);
    assert_eq!(tree.children[0].storage_path, "/20260501090000-doc0001.sy");
    assert_eq!(tree.children[0].title, "Y2");
    assert_eq!(tree.children[1].title, "Z");
    assert_eq!(tree.doc_count_recursive, 2);
    // Counts ignore the depth slice; children are loaded only within it.
    let shallow = assemble(&nested_rows(), &nb(), "Inbox", None, Depth::N(0));
    assert_eq!(shallow.doc_count_recursive, 3);
    assert!(shallow.has_children);
    assert!(shallow.children.is_empty());
}

#[test]
fn render_agent_md_skips_virtual_root_marker() {
    let rows = nested_rows();
    let tree = assemble(&rows, &nb(), "Inbox", None, Depth::N(1));
    let s = render_agent_md(&tree, Depth::N(1));
    assert!(!s.contains("sy:doc id= "), "virtual root must not emit an empty id marker; got:\n{s}");
    assert!(s.contains("hpath=/A"), "expected /A child in render: {s}");
    assert!(s.contains("<!-- sy:tree depth=1"), "expected trailing tree summary; got:\n{s}");
}

#[test]
fn render_agent_md_marks_truncated_when_partial() {
    let rows = nested_rows();
    let tree = assemble(&rows, &nb(), "Inbox", Some("/20260501090000-doc0001.sy"), Depth::N(1));
    let s = render_agent_md(&tree, Depth::N(1));
    assert!(s.contains("truncated=true"), "expected truncated=true; got:\n{s}");
}

#[test]
fn render_agent_md_marks_not_truncated_when_full() {
    let rows = nested_rows();
    let tree = assemble(&rows, &nb(), "Inbox", Some("/20260501090000-doc0001.sy"), Depth::All);
    let s = render_agent_md(&tree, Depth::All);
    assert!(s.contains("truncated=false"), "expected truncated=false; got:\n{s}");
    assert!(s.contains("<!-- sy:tree depth=all"), "got: {s}");
}

#[test]
fn render_agent_md_truncated_depth_limit_message() {
    let rows = nested_rows();
    let tree = assemble(&rows, &nb(), "Inbox", Some("/20260501090000-doc0001.sy"), Depth::N(1));
    let s = render_agent_md(&tree, Depth::N(1));
    assert!(
        s.contains("truncated=true (depth limit: 1, use --depth all to see full tree)"),
        "expected actionable depth-limit message; got:\n{s}"
    );
}

#[test]
fn render_agent_md_truncated_all_no_depth_hint() {
    let rows = nested_rows();
    let tree = assemble(&rows, &nb(), "Inbox", Some("/20260501090000-doc0001.sy"), Depth::N(1));
    let s = render_agent_md(&tree, Depth::All);
    assert!(
        s.contains("truncated=true (node limit reached)"),
        "expected defensive truncated message; got:\n{s}"
    );
}

#[test]
fn render_agent_md_exact_text() {
    let rows = nested_rows();
    let tree = assemble(&rows, &nb(), "Inbox", Some("/20260501090000-doc0001.sy"), Depth::N(1));
    let s = render_agent_md(&tree, Depth::N(1));
    let expected = "<!-- sy:doc id=20260501090000-doc0001 hpath=/A title=\"A\" sort=10 -->\n\
- /A (2 subdocs)\n  \
<!-- sy:doc id=20260501090000-doc0002 hpath=/A/B title=\"B\" sort=20 -->\n  \
- /A/B (1 subdoc) (truncated)\n\
<!-- sy:tree depth=1 total_loaded=2 truncated=true (depth limit: 1, use --depth all to see full tree) -->\n";
    assert_eq!(s, expected);
}

#[test]
fn subtree_sql_for_notebook_and_for_doc() {
    assert_eq!(
        subtree_sql(&nb(), ""),
        "SELECT id, hpath, path, sort, created, updated, ial FROM blocks WHERE box = '20260501000000-nb00001' AND type = 'd' ORDER BY path LIMIT 100000"
    );
    assert_eq!(
        subtree_sql(&nb(), "/x.sy"),
        "SELECT id, hpath, path, sort, created, updated, ial FROM blocks WHERE box = '20260501000000-nb00001' AND type = 'd' AND (path = '/x.sy' OR path LIKE '/x/%') ORDER BY path LIMIT 100000"
    );
}

#[test]
fn virtual_root_only_for_root_hpaths() {
    let by_root = DocLookup::ByHpath { notebook: nb(), hpath: "/".into() };
    assert_eq!(virtual_root_notebook(&by_root), Some(nb()));
    let by_empty = DocLookup::ByHpath { notebook: nb(), hpath: "".into() };
    assert!(virtual_root_notebook(&by_empty).is_some());
    let by_doc = DocLookup::ByHpath { notebook: nb(), hpath: "/A".into() };
    assert!(virtual_root_notebook(&by_doc).is_none());
    let by_id = DocLookup::ById(BlockId::parse("20260501090000-doc0001").unwrap());
    assert!(virtual_root_notebook(&by_id).is_none());
}

#[test]
fn loaded_count_equals_doc_markers() {
    let rows = nested_rows();
    for depth in [Depth::N(1), Depth::N(2), Depth::All] {
        let tree = assemble(&rows, &nb(), "Inbox", None, depth);
        let s = render_agent_md(&tree, depth);
        let markers = s.matches("<!-- sy:doc ").count();
        let trailer = s.lines().last().unwrap().to_string();
        assert!(trailer.contains(&format!(" total_loaded={markers} ")), "trailer {trailer} vs {markers} markers");
    }
}

#[test]
fn node_counts_agree_across_depths() {
    let rows = nested_rows();
    let shallow = assemble(&rows, &nb(), "Inbox", None, Depth::N(1));
    let full = assemble(&rows, &nb(), "Inbox", None, Depth::All);
    assert_eq!(shallow.doc_count_recursive, full.doc_count_recursive);
    assert_eq!(shallow.children.len(), full.children.len());
    for (a, b) in shallow.children.iter().zip(full.children.iter()) {
        assert_eq!(a.storage_path, b.storage_path);
        assert_eq!(a.doc_count_recursive, b.doc_count_recursive);
        assert_eq!(a.has_children, b.has_children);
    }
}
