use siyuan_harness::args::ArgValue;
use siyuan_harness::requests::{search_text_sql, text_search_request};
use siyuan_harness::tools::{tool_kind, tool_spec, tool_specs, ToolKind, TOOL_COUNT};

#[test]
fn tool_table_lists_every_tool_once() {
    let specs = tool_specs();
    assert_eq!(specs.len(), TOOL_COUNT);
    assert_eq!(specs.len(), 25);
    for (i, a) in specs.iter().enumerate() {
        assert!(a.name.starts_with("siyuan_"));
        assert!(!a.description.is_empty());
        let schema: serde_json::Value = serde_json::from_str(&a.input_schema).expect("schema is JSON");
        assert_eq!(schema["type"], "object");
        for b in &specs[i + 1..] {
            assert_ne!(a.name, b.name);
        }
        let k = tool_kind(&a.name).expect("listed name finds its tool");
        assert_eq!(tool_spec(k).name, a.name);
    }
    assert_eq!(specs[0].name, "siyuan_status");
    assert_eq!(specs[24].name, "siyuan_graph_neighborhood");
    let names: Vec<&str> = specs.iter().map(|t| t.name.as_str()).collect();
    for n in ["siyuan_doc_get", "siyuan_block_get", "siyuan_doc_create", "siyuan_block_update", "siyuan_block_insert",
        "siyuan_block_move", "siyuan_block_delete", "siyuan_attrs_get", "siyuan_attrs_set", "siyuan_doc_tree"] {
        assert!(names.contains(&n), "missing {n}");
    }
}

#[test]
fn tool_lookup_by_name() {
    assert_eq!(tool_kind("siyuan_sql"), Some(ToolKind::Sql));
    assert_eq!(tool_kind("siyuan_block_move"), Some(ToolKind::BlockMove));
    assert_eq!(tool_kind("siyuan_doc_tree"), Some(ToolKind::DocTree));
    assert_eq!(tool_kind("siyuan_move_block"), None);
    assert_eq!(tool_kind("siyuan_get_doc"), None);
    assert_eq!(tool_kind(""), None);
    let schema = tool_spec(ToolKind::DocGet).input_schema;
    assert!(schema.contains("\"required\":[\"id\"]"));
}

#[test]
fn text_search_statement() {
    assert_eq!(
        search_text_sql("O'Brien 50%", 10),
        "SELECT id, root_id, markdown FROM blocks WHERE markdown LIKE '%O''Brien 50%%' ESCAPE '\\' LIMIT 10"
    );
    let req = text_search_request(ArgValue::Object(siyuan_harness::args::ArgMap {
        entries: vec![("query".to_string(), ArgValue::Str("x".to_string())), ("limit".to_string(), ArgValue::Number(Some(5000)))],
    }))
    .unwrap();
    assert_eq!((req.query.as_str(), req.limit), ("x", 1000));
}
