use std::collections::BTreeMap;

use siyuan_harness::block::{BlockNode, BlockRole, BlockType};
use siyuan_harness::error::SiyuanError;
use siyuan_harness::graph::Direction;
use siyuan_harness::ids::{BlockId, NotebookId};
use siyuan_harness::mcp::{
    block_id_arg, check_move_sources, check_resolve_hpath, classify_api_msg, direction_arg, doc_page_request,
    graph_depth_arg, heading_document, heading_probe_sql, insert_call, move_target, next_page_hint,
    search_limit_arg, section_end, siyuan_to_mcp, FaultKind, InsertCall, ProbeRow, MAX_GRAPH_DEPTH, MAX_PAGE_SIZE,
};
use siyuan_harness::position::{Position, PositionKind};

#[test]
fn single_page_emits_no_hint() {
    assert!(next_page_hint(1, 1, "agent-md").is_none());
}

#[test]
fn middle_page_points_to_next() {
    let hint = next_page_hint(2, 5, "agent-md").expect("middle page should yield a hint");
    assert!(hint.contains("page 2 of 5"));
    assert!(hint.contains("page=3"));
}

#[test]
fn last_page_emits_no_hint() {
    assert!(next_page_hint(5, 5, "agent-md").is_none());
}

#[test]
fn first_of_two_pages_points_to_two() {
    let hint = next_page_hint(1, 2, "json").expect("first of two pages should yield a hint");
    assert!(hint.contains("page 1 of 2"));
    assert!(hint.contains("page=2"));
}

#[test]
fn next_page_hint_exact_text() {
    assert_eq!(
        next_page_hint(1, 2, "json").unwrap(),
        "Pagination: this is page 1 of 2. Call again with page=2 to fetch the next page. Use format=json for structured access to block metadata."
    );
}

#[test]
fn graph_depth_cap_is_eight() {
    assert_eq!(MAX_GRAPH_DEPTH, 8);
}

#[test]
fn page_size_cap_is_one_thousand() {
    assert_eq!(MAX_PAGE_SIZE, 1000);
}

#[test]
fn argument_caps_and_defaults() {
    assert_eq!(graph_depth_arg(None), 1);
    assert_eq!(graph_depth_arg(Some(3)), 3);
    assert_eq!(graph_depth_arg(Some(1_000_000)), 8);
    let req = doc_page_request(None, Some(5000));
    assert_eq!(req.page, 1);
    assert_eq!(req.page_size, 1000);
    let req = doc_page_request(Some(7), None);
    assert_eq!(req.page, 7);
    assert_eq!(req.page_size, 50);
    assert_eq!(direction_arg(Some("outgoing")), Direction::Outgoing);
    assert_eq!(direction_arg(Some("incoming")), Direction::Incoming);
    assert_eq!(direction_arg(Some("sideways")), Direction::Both);
    assert_eq!(direction_arg(None), Direction::Both);
    assert_eq!(search_limit_arg(None).unwrap(), 50);
    assert_eq!(search_limit_arg(Some(5000)).unwrap(), 1000);
    assert!(search_limit_arg(Some(0)).unwrap_err().message.contains("greater than 0"));
}

#[test]
fn classify_auth_prefix() {
    let err = classify_api_msg("Auth failed [abcdef]").expect("auth pattern matches");
    assert!(err.message.contains("authentication failed"));
}

#[test]
fn classify_block_not_found_literal() {
    let err = classify_api_msg("block not found").expect("block-not-found matches");
    assert!(err.message.contains("not found"));
}

#[test]
fn classify_content_block_with_id_lang15() {
    let err = classify_api_msg("Content block with id [20260501-xxxxxxx] not found").expect("Lang(15) matches");
    assert!(err.message.contains("not found"));
}

#[test]
fn classify_notebook_not_found_variants() {
    assert!(classify_api_msg("Query notebook failed").is_some());
    assert!(classify_api_msg("notebook not found").is_some());
    assert!(classify_api_msg("opened notebook [nb-xyz] not found").is_some());
}

#[test]
fn classify_caller_side_field_required() {
    let err = classify_api_msg("Field [stmt] is required").expect("field-required matches");
    assert!(err.message.contains("kernel rejected request"));
}

#[test]
fn classify_caller_side_parses_request() {
    let err = classify_api_msg("Parses request [/api/foo] failed: unexpected end of JSON").expect("parses-request matches");
    assert!(err.message.contains("kernel rejected request"));
}

#[test]
fn classify_invalid_id_argument() {
    let err = classify_api_msg("invalid ID argument").expect("invalid-id matches");
    assert!(err.message.contains("kernel rejected request"));
}

#[test]
fn classify_unknown_message_passes_through() {
    assert!(classify_api_msg("some unrelated kernel hiccup").is_none());
}

#[test]
fn siyuan_errors_map_to_fault_kinds() {
    let f = siyuan_to_mcp(SiyuanError::Auth);
    assert_eq!(f.kind, FaultKind::InvalidRequest);
    let f = siyuan_to_mcp(SiyuanError::NotFound("x".into()));
    assert_eq!((f.kind, f.message.as_str()), (FaultKind::InvalidParams, "not found: x"));
    let f = siyuan_to_mcp(SiyuanError::Api { code: 7, msg: "tree not found".into() });
    assert_eq!((f.kind, f.message.as_str()), (FaultKind::InvalidParams, "not found: tree not found"));
    let f = siyuan_to_mcp(SiyuanError::Api { code: 7, msg: "boom".into() });
    assert_eq!((f.kind, f.message.as_str()), (FaultKind::InternalError, "siyuan kernel: code=7: boom"));
    let f = siyuan_to_mcp(SiyuanError::SqlUnavailable);
    assert_eq!(f.message, "siyuan SQL endpoint disabled (publish mode?)");
    let f = siyuan_to_mcp(SiyuanError::Http("down".into()));
    assert_eq!((f.kind, f.message.as_str()), (FaultKind::InternalError, "HTTP transport error: down"));
    let f = siyuan_to_mcp(SiyuanError::AmbiguousPath {
        hpath: "/P".into(),
        candidates: vec![BlockId::parse("20260501090000-doc0001").unwrap()],
    });
    assert_eq!(f.message, "ambiguous path /P: [BlockId(\"20260501090000-doc0001\")]");
}

#[test]
fn block_move_refuses_unsupported_positions() {
    let anchor = BlockId::parse("20260501090000-blk0002").unwrap();
    for kind in [
        PositionKind::BeforeBlock,
        PositionKind::AppendSection,
        PositionKind::PrependSection,
        PositionKind::AppendDoc,
        PositionKind::PrependDoc,
    ] {
        let err = move_target(kind, anchor.clone()).expect_err("must be rejected");
        assert!(err.message.contains("not supported for siyuan_block_move"), "got: {}", err.message);
    }
    let err = move_target(PositionKind::BeforeBlock, anchor.clone()).unwrap_err();
    assert_eq!(
        err.message,
        "position 'BeforeBlock' is not supported for siyuan_block_move; use `after_block` or `append_child`"
    );
    let (prev, parent) = move_target(PositionKind::AfterBlock, anchor.clone()).unwrap();
    assert_eq!(prev, Some(anchor.clone()));
    assert!(parent.is_none());
    let (prev, parent) = move_target(PositionKind::AppendChild, anchor.clone()).unwrap();
    assert!(prev.is_none());
    assert_eq!(parent, Some(anchor));
}

#[test]
fn argument_checks_name_the_argument() {
    assert!(check_move_sources(&vec![]).unwrap_err().message.contains("from_paths"));
    assert!(check_move_sources(&vec!["/a.sy".into()]).is_ok());
    assert!(check_resolve_hpath("   ").unwrap_err().message.contains("hpath"));
    assert!(check_resolve_hpath("").is_err());
    assert!(check_resolve_hpath("/").is_ok());
    assert!(check_resolve_hpath(" /A ").is_ok());
    let e = block_id_arg("bad").unwrap_err();
    assert_eq!(e.kind, FaultKind::InvalidParams);
    assert!(e.message.starts_with("invalid block id: invalid SiYuan block id: \"bad\""));
}

#[test]
fn insert_positions_plan_kernel_calls() {
    let id = BlockId::parse("20260501090000-blk0002").unwrap();
    let call = insert_call(Position::from((PositionKind::PrependSection, id.clone())));
    assert!(matches!(call, InsertCall::After(ref a) if *a == id));
    let call = insert_call(Position::from((PositionKind::AppendDoc, id.clone())));
    assert!(matches!(call, InsertCall::Append(_)));
    let call = insert_call(Position::from((PositionKind::AppendSection, id.clone())));
    assert!(matches!(call, InsertCall::AfterSectionOf(_)));
    let call = insert_call(Position::from((PositionKind::BeforeBlock, id)));
    assert!(matches!(call, InsertCall::Before(_)));
}

fn mk(id: &str, ty: BlockType, sub: Option<&str>) -> BlockNode {
    let root = "20260501000001-doc0001";
    BlockNode {
        id: BlockId::parse(id).unwrap(),
        root_id: BlockId::parse(root).unwrap(),
        parent_id: Some(BlockId::parse(root).unwrap()),
        notebook_id: NotebookId::parse("20260501000000-nb00001").unwrap(),
        block_type: ty,
        subtype: sub.map(String::from),
        role: BlockRole::for_block_type(ty),
        markdown: String::new(),
        kramdown: None,
        ial: None,
        attrs: BTreeMap::new(),
        hash: None,
        created: None,
        updated: None,
        sort: None,
        structural_children: vec![],
        section_children: vec![],
    }
}

#[test]
fn section_end_resolution() {
    let h = BlockId::parse("20260501000010-h2aaaaa").unwrap();
    assert_eq!(
        heading_probe_sql(&h),
        "SELECT root_id, type FROM blocks WHERE id = '20260501000010-h2aaaaa'"
    );
    assert_eq!(heading_document(&vec![]).unwrap_err().message, "heading not found");
    let not_h = vec![ProbeRow { root_id: "20260501000001-doc0001".into(), block_type: "p".into() }];
    assert_eq!(heading_document(&not_h).unwrap_err().message, "anchor for append_section must be a heading block");
    let ok = vec![ProbeRow { root_id: "20260501000001-doc0001".into(), block_type: "h".into() }];
    assert_eq!(heading_document(&ok).unwrap().as_str(), "20260501000001-doc0001");

    let blocks = vec![
        mk("20260501000010-h2aaaaa", BlockType::Heading, Some("h2")),
        mk("20260501000020-paaaaaa", BlockType::Paragraph, None),
        mk("20260501000030-paaaaab", BlockType::Paragraph, None),
        mk("20260501000040-h2bbbbb", BlockType::Heading, Some("h2")),
    ];
    assert_eq!(section_end(blocks, &h).unwrap().as_str(), "20260501000030-paaaaab");
    let empty = vec![
        mk("20260501000010-h2aaaaa", BlockType::Heading, Some("h2")),
        mk("20260501000040-h2bbbbb", BlockType::Heading, Some("h2")),
    ];
    assert_eq!(section_end(empty, &h).unwrap(), h);
    let missing = vec![mk("20260501000040-h2bbbbb", BlockType::Heading, Some("h2"))];
    assert_eq!(section_end(missing, &h).unwrap_err().message, "heading not in doc");
    let para = vec![mk("20260501000010-h2aaaaa", BlockType::Paragraph, None)];
    assert_eq!(section_end(para, &h).unwrap_err().message, "anchor is not a heading after re-resolution");
}
