use siyuan_harness::args::{
    attr_strings, ensure_object, object_field, optional_string, optional_u64, required_string, string_array,
    ArgMap, ArgValue,
};
use siyuan_harness::graph::Direction;
use siyuan_harness::mcp::FaultKind;
use siyuan_harness::position::Position;
use siyuan_harness::requests::{
    block_insert_request, block_move_request, doc_move_request, doc_read_request, doc_resolve_request,
    doc_tree_request, graph_request, set_attrs_request, tag_search_request,
};
use siyuan_harness::doc_meta::DocLookup;
use siyuan_harness::doc_tree::Depth;

fn s(x: &str) -> ArgValue {
    ArgValue::Str(x.to_string())
}

fn map(fields: Vec<(&str, ArgValue)>) -> ArgMap {
    ArgMap { entries: fields.into_iter().map(|(k, v)| (k.to_string(), v)).collect() }
}

fn obj(fields: Vec<(&str, ArgValue)>) -> ArgValue {
    ArgValue::Object(map(fields))
}

#[test]
fn block_move_rejects_unsupported_position_kinds() {
    let unsupported = ["before_block", "append_section", "prepend_section", "append_doc", "prepend_doc"];
    for kind in unsupported {
        let args = obj(vec![
            ("id", s("20260501090000-blk0001")),
            ("position", s(kind)),
            ("anchor", s("20260501090000-blk0002")),
        ]);
        let err = block_move_request(args).expect_err("position must be rejected for block_move");
        assert!(
            err.message.contains("not supported for siyuan_block_move"),
            "error should explain that position {kind} is not supported; got: {}",
            err.message
        );
    }
}

#[test]
fn block_move_rejects_missing_position_or_anchor() {
    let args = obj(vec![("id", s("20260501090000-blk0001")), ("anchor", s("20260501090000-blk0002"))]);
    let err = block_move_request(args).expect_err("missing position must be rejected");
    assert!(err.message.contains("position"), "error should mention position; got: {}", err.message);

    let args = obj(vec![("id", s("20260501090000-blk0001")), ("position", s("after_block"))]);
    let err = block_move_request(args).expect_err("missing anchor must be rejected");
    assert!(err.message.contains("anchor"), "error should mention anchor; got: {}", err.message);
}

#[test]
fn move_doc_rejects_empty_from_paths() {
    let args = obj(vec![
        ("from_paths", ArgValue::Array(vec![])),
        ("to_notebook", s("20260501000000-nb00001")),
        ("to_path", s("/Target")),
    ]);
    let err = doc_move_request(args).expect_err("empty from_paths must be rejected");
    assert!(err.message.contains("from_paths"), "error message should reference `from_paths`; got: {}", err.message);
}

#[test]
fn resolve_rejects_whitespace_hpath() {
    let args = obj(vec![("notebook", s("20260501000000-nb00001")), ("hpath", s("   "))]);
    let err = doc_resolve_request(args).expect_err("whitespace hpath must be rejected");
    assert!(err.message.contains("hpath"), "error message should reference `hpath`; got: {}", err.message);
}

#[test]
fn arguments_must_be_an_object_or_absent() {
    assert_eq!(ensure_object(ArgValue::Null).unwrap().entries.len(), 0);
    let m = ensure_object(obj(vec![("a", s("b"))])).unwrap();
    assert_eq!(m.entries.len(), 1);
    for bad in [ArgValue::Bool(true), ArgValue::Number(Some(3)), s("x"), ArgValue::Array(vec![])] {
        let err = ensure_object(bad).unwrap_err();
        assert_eq!(err.kind, FaultKind::InvalidParams);
        assert_eq!(err.message, "arguments must be a JSON object");
    }
}

#[test]
fn field_readers_take_the_first_entry_and_check_types() {
    let m = map(vec![
        ("name", s("first")),
        ("name", s("second")),
        ("count", ArgValue::Number(Some(7))),
        ("neg", ArgValue::Number(None)),
        ("flag", ArgValue::Bool(false)),
    ]);
    assert_eq!(required_string(&m, "name").unwrap(), "first");
    assert_eq!(required_string(&m, "flag").unwrap_err().message, "missing or invalid `flag`");
    assert_eq!(required_string(&m, "absent").unwrap_err().message, "missing or invalid `absent`");
    assert_eq!(optional_string(&m, "name"), Some("first".to_string()));
    assert_eq!(optional_string(&m, "count"), None);
    assert_eq!(optional_u64(&m, "count"), Some(7));
    assert_eq!(optional_u64(&m, "neg"), None);
    assert_eq!(optional_u64(&m, "name"), None);
}

#[test]
fn string_arrays_and_objects() {
    let m = map(vec![
        ("paths", ArgValue::Array(vec![s("/a.sy"), s("/b.sy")])),
        ("mixed", ArgValue::Array(vec![s("/a.sy"), ArgValue::Null])),
        ("text", s("x")),
        ("attrs", obj(vec![("custom-a", s("1"))])),
    ]);
    assert_eq!(string_array(&m, "paths").unwrap(), vec!["/a.sy".to_string(), "/b.sy".to_string()]);
    assert_eq!(string_array(&m, "mixed").unwrap_err().message, "`mixed` must be array of strings");
    assert_eq!(string_array(&m, "text").unwrap_err().message, "`text` must be an array");
    assert_eq!(string_array(&m, "none").unwrap_err().message, "missing `none`");
    assert_eq!(object_field(&m, "attrs").unwrap().entries.len(), 1);
    assert_eq!(object_field(&m, "text").unwrap_err().message, "`text` must be an object");
    assert_eq!(object_field(&m, "none").unwrap_err().message, "missing `none`");
}

#[test]
fn attribute_values_must_be_strings() {
    let good = map(vec![("custom-a", s("1")), ("custom-b", s("2"))]);
    assert_eq!(
        attr_strings(&good).unwrap(),
        vec![("custom-a".to_string(), "1".to_string()), ("custom-b".to_string(), "2".to_string())]
    );
    let bad = map(vec![("custom-a", s("1")), ("custom-b", ArgValue::Number(Some(2))), ("custom-c", ArgValue::Null)]);
    assert_eq!(attr_strings(&bad).unwrap_err().message, "attrs value for `custom-b` must be a string");
}

#[test]
fn block_move_plans_previous_or_parent() {
    let args = obj(vec![
        ("id", s("20260501090000-blk0001")),
        ("position", s("after_block")),
        ("anchor", s("20260501090000-blk0002")),
    ]);
    let m = block_move_request(args).unwrap();
    assert_eq!(m.id.as_str(), "20260501090000-blk0001");
    assert_eq!(m.previous.as_ref().map(|p| p.as_str()), Some("20260501090000-blk0002"));
    assert!(m.parent.is_none());

    let args = obj(vec![
        ("id", s("20260501090000-blk0001")),
        ("position", s("append_child")),
        ("anchor", s("20260501090000-blk0002")),
    ]);
    let m = block_move_request(args).unwrap();
    assert!(m.previous.is_none());
    assert_eq!(m.parent.as_ref().map(|p| p.as_str()), Some("20260501090000-blk0002"));

    let args = obj(vec![
        ("id", s("20260501090000-blk0001")),
        ("position", s("before_block")),
        ("anchor", s("20260501090000-blk0002")),
    ]);
    assert_eq!(
        block_move_request(args).unwrap_err().message,
        "position 'BeforeBlock' is not supported for siyuan_block_move; use `after_block` or `append_child`"
    );

    let args = obj(vec![("id", s("bad")), ("position", s("after_block")), ("anchor", s("20260501090000-blk0002"))]);
    assert!(block_move_request(args).unwrap_err().message.starts_with("invalid block id: "));

    let args = obj(vec![
        ("id", s("20260501090000-blk0001")),
        ("position", s("sideways")),
        ("anchor", s("20260501090000-blk0002")),
    ]);
    assert_eq!(
        block_move_request(args).unwrap_err().message,
        "invalid position kind: unknown variant `sideways`, expected one of `after_block`, `before_block`, \
         `append_child`, `prepend_child`, `append_section`, `prepend_section`, `append_doc`, `prepend_doc`"
    );
}

#[test]
fn block_insert_builds_the_position() {
    let args = obj(vec![
        ("markdown", s("hello")),
        ("position", s("append_section")),
        ("anchor", s("20260501090000-hdg0001")),
    ]);
    let ins = block_insert_request(args).unwrap();
    assert_eq!(ins.markdown, "hello");
    match ins.position {
        Position::AppendSection { heading_id } => assert_eq!(heading_id.as_str(), "20260501090000-hdg0001"),
        other => panic!("unexpected position {other:?}"),
    }
    let args = obj(vec![("position", s("append_section")), ("anchor", s("20260501090000-hdg0001"))]);
    assert_eq!(block_insert_request(args).unwrap_err().message, "missing or invalid `markdown`");
}

#[test]
fn doc_read_defaults_and_caps() {
    let r = doc_read_request(obj(vec![("id", s("20260501090000-doc0001"))])).unwrap();
    assert_eq!((r.page.page, r.page.page_size), (1, 50));
    assert_eq!(r.format, "agent-md");
    let r = doc_read_request(obj(vec![
        ("id", s("20260501090000-doc0001")),
        ("page", ArgValue::Number(Some(3))),
        ("page_size", ArgValue::Number(Some(5000))),
        ("format", s("json")),
    ]))
    .unwrap();
    assert_eq!((r.page.page, r.page.page_size), (3, 1000));
    assert_eq!(r.format, "json");
    assert_eq!(doc_read_request(ArgValue::Null).unwrap_err().message, "missing or invalid `id`");
}

#[test]
fn graph_request_defaults_caps_and_direction() {
    let g = graph_request(obj(vec![("center", s("20260501090000-blk0001"))])).unwrap();
    assert_eq!((g.depth, g.direction), (1, Direction::Both));
    let g = graph_request(obj(vec![
        ("center", s("20260501090000-blk0001")),
        ("depth", ArgValue::Number(Some(99))),
        ("direction", s("incoming")),
    ]))
    .unwrap();
    assert_eq!((g.depth, g.direction), (8, Direction::Incoming));
    let g = graph_request(obj(vec![("center", s("20260501090000-blk0001")), ("direction", s("sideways"))])).unwrap();
    assert_eq!(g.direction, Direction::Both);
}

#[test]
fn tag_search_limits() {
    let t = tag_search_request(obj(vec![("tag", s("work"))])).unwrap();
    assert_eq!((t.tag.as_str(), t.limit), ("work", 50));
    let t = tag_search_request(obj(vec![("tag", s("work")), ("limit", ArgValue::Number(Some(5000)))])).unwrap();
    assert_eq!(t.limit, 1000);
    let err = tag_search_request(obj(vec![("tag", s("work")), ("limit", ArgValue::Number(Some(0)))])).unwrap_err();
    assert_eq!(err.message, "`limit` must be greater than 0");
}

#[test]
fn doc_move_and_resolve_plans() {
    let m = doc_move_request(obj(vec![
        ("from_paths", ArgValue::Array(vec![s("/a.sy")])),
        ("to_notebook", s("20260501000000-nb00001")),
        ("to_path", s("/Target")),
    ]))
    .unwrap();
    assert_eq!(m.from_paths, vec!["/a.sy".to_string()]);
    assert_eq!(m.to_notebook.as_str(), "20260501000000-nb00001");
    assert_eq!(m.to_path, "/Target");
    let r = doc_resolve_request(obj(vec![("notebook", s("20260501000000-nb00001")), ("hpath", s("/"))])).unwrap();
    match r.lookup {
        DocLookup::ByHpath { notebook, hpath } => {
            assert_eq!(notebook.as_str(), "20260501000000-nb00001");
            assert_eq!(hpath, "/");
        }
        other => panic!("unexpected lookup {other:?}"),
    }
    let err = doc_resolve_request(obj(vec![("notebook", s("nope")), ("hpath", s("/x"))])).unwrap_err();
    assert!(err.message.starts_with("invalid notebook id: "));
}

#[test]
fn set_attrs_plan() {
    let a = set_attrs_request(obj(vec![
        ("id", s("20260501090000-blk0001")),
        ("attrs", obj(vec![("custom-k", s("v"))])),
    ]))
    .unwrap();
    assert_eq!(a.id.as_str(), "20260501090000-blk0001");
    assert_eq!(a.attrs, vec![("custom-k".to_string(), "v".to_string())]);
    let err = set_attrs_request(obj(vec![("id", s("20260501090000-blk0001")), ("attrs", s("x"))])).unwrap_err();
    assert_eq!(err.message, "`attrs` must be an object");
    let err = set_attrs_request(obj(vec![
        ("id", s("20260501090000-blk0001")),
        ("attrs", obj(vec![("custom-k", ArgValue::Bool(true))])),
    ]))
    .unwrap_err();
    assert_eq!(err.message, "attrs value for `custom-k` must be a string");
}

#[test]
fn lookup_takes_one_mode() {
    let r = doc_resolve_request(obj(vec![("id", s("20260501090000-doc0001"))])).unwrap();
    assert!(matches!(r.lookup, DocLookup::ById(ref id) if id.as_str() == "20260501090000-doc0001"));
    let err = doc_resolve_request(obj(vec![("id", s("20260501090000-doc0001")), ("notebook", s("20260501000000-nb00001"))]))
        .unwrap_err();
    assert_eq!(err.message, "provide either `id` or `notebook` with `hpath`, not both");
    let err = doc_resolve_request(ArgValue::Null).unwrap_err();
    assert_eq!(err.message, "provide either `id` or `notebook` with `hpath`");
    let err = doc_resolve_request(obj(vec![("notebook", s("20260501000000-nb00001"))])).unwrap_err();
    assert_eq!(err.message, "missing or invalid `hpath`");
}

#[test]
fn doc_tree_defaults_and_depths() {
    let t = doc_tree_request(obj(vec![("notebook", s("20260501000000-nb00001"))])).unwrap();
    assert_eq!(t.depth, Depth::N(1));
    assert_eq!(t.format, "agent-md");
    match &t.lookup {
        DocLookup::ByHpath { hpath, .. } => assert_eq!(hpath, "/"),
        other => panic!("unexpected lookup {other:?}"),
    }
    let t = doc_tree_request(obj(vec![("id", s("20260501090000-doc0001")), ("depth", s("all")), ("format", s("json"))]))
        .unwrap();
    assert_eq!(t.depth, Depth::All);
    assert_eq!(t.format, "json");
    let t = doc_tree_request(obj(vec![("id", s("20260501090000-doc0001")), ("depth", ArgValue::Number(Some(3)))])).unwrap();
    assert_eq!(t.depth, Depth::N(3));
    for bad in [ArgValue::Number(Some(0)), ArgValue::Number(None), s("deep"), ArgValue::Bool(true)] {
        let err = doc_tree_request(obj(vec![("id", s("20260501090000-doc0001")), ("depth", bad)])).unwrap_err();
        assert_eq!(err.message, "`depth` must be a positive integer or \"all\"");
    }
}

#[test]
fn filetree_targets_take_a_lookup_or_a_storage_path() {
    let r = siyuan_harness::requests::doc_rename_request(obj(vec![
        ("id", s("20260501090000-doc0001")),
        ("title", s("Q3 Plan")),
    ]))
    .unwrap();
    assert_eq!(r.title, "Q3 Plan");
    match r.target {
        siyuan_harness::requests::DocTarget::Lookup(DocLookup::ById(id)) => assert_eq!(id.as_str(), "20260501090000-doc0001"),
        other => panic!("unexpected target {other:?}"),
    }
    let r = siyuan_harness::requests::doc_rename_request(obj(vec![
        ("notebook", s("20260501000000-nb00001")),
        ("path", s("/20260501090000-doc0001.sy")),
        ("title", s("T")),
    ]))
    .unwrap();
    match r.target {
        siyuan_harness::requests::DocTarget::Stored { notebook, path } => {
            assert_eq!(notebook.as_str(), "20260501000000-nb00001");
            assert_eq!(path, "/20260501090000-doc0001.sy");
        }
        other => panic!("unexpected target {other:?}"),
    }
    let t = siyuan_harness::requests::doc_remove_request(obj(vec![
        ("notebook", s("20260501000000-nb00001")),
        ("hpath", s("/Plan")),
    ]))
    .unwrap();
    match t {
        siyuan_harness::requests::DocTarget::Lookup(DocLookup::ByHpath { notebook, hpath }) => {
            assert_eq!(notebook.as_str(), "20260501000000-nb00001");
            assert_eq!(hpath, "/Plan");
        }
        other => panic!("unexpected target {other:?}"),
    }
}

#[test]
fn filetree_targets_refuse_bad_arguments() {
    let both = siyuan_harness::requests::doc_remove_request(obj(vec![
        ("id", s("20260501090000-doc0001")),
        ("notebook", s("20260501000000-nb00001")),
        ("hpath", s("/Plan")),
    ]))
    .unwrap_err();
    assert_eq!(both.kind, FaultKind::InvalidParams);
    assert_eq!(both.message, "provide either `id` or `notebook` with `hpath`, not both");
    let none = siyuan_harness::requests::doc_rename_request(obj(vec![("title", s("T"))])).unwrap_err();
    assert_eq!(none.message, "provide either `id` or `notebook` with `hpath`");
    let no_title = siyuan_harness::requests::doc_rename_request(obj(vec![("id", s("20260501090000-doc0001"))])).unwrap_err();
    assert!(no_title.message.contains("title"));
    let no_notebook = siyuan_harness::requests::doc_remove_request(obj(vec![("path", s("/a.sy"))])).unwrap_err();
    assert!(no_notebook.message.contains("notebook"));
}

#[test]
fn doc_move_takes_one_looked_up_source() {
    let m = doc_move_request(obj(vec![
        ("id", s("20260501090000-doc0001")),
        ("to_notebook", s("20260501000000-nb00002")),
        ("to_path", s("/")),
    ]))
    .unwrap();
    assert!(m.from_paths.is_empty());
    match m.source {
        Some(DocLookup::ById(id)) => assert_eq!(id.as_str(), "20260501090000-doc0001"),
        other => panic!("unexpected source {other:?}"),
    }
    let missing = doc_move_request(obj(vec![("to_notebook", s("20260501000000-nb00002")), ("to_path", s("/"))])).unwrap_err();
    assert_eq!(missing.message, "missing `from_paths`");
}
