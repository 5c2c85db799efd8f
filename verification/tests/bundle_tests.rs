use std::collections::BTreeMap;

use siyuan_harness::agent_md::{render_block, render_doc};
use siyuan_harness::block::{BlockNode, BlockRole, BlockType};
use siyuan_harness::bundle::{DocBundle, DocMeta, PageInfo};
use siyuan_harness::ids::{BlockId, NotebookId};
use siyuan_harness::load::{
    assemble_bundle, dfs_order, doc_blocks_sql, lift_rows, record_child_order, BlockRow, ChildOrder, LoadError,
};
use siyuan_harness::pagination::PageRequest;
use siyuan_harness::relations::{relation_sql, summarize_relations, IncomingRow, OutgoingRow, TagSpanRow};

fn mk_block(id: &str, ty: BlockType, md: &str) -> BlockNode {
    BlockNode {
        id: BlockId::parse(id).unwrap(),
        root_id: BlockId::parse("20260501000001-doc0001").unwrap(),
        parent_id: Some(BlockId::parse("20260501000001-doc0001").unwrap()),
        notebook_id: NotebookId::parse("20260501000000-nb00001").unwrap(),
        block_type: ty,
        subtype: None,
        role: BlockRole::for_block_type(ty),
        markdown: md.into(),
        kramdown: None,
        ial: None,
        attrs: BTreeMap::new(),
        hash: None,
        created: None,
        updated: None,
        sort: None,
        structural_children: vec![],
        section_children: vec![],
    }
}

fn bundle(hpath: &str, total_blocks: usize, blocks: Vec<BlockNode>) -> DocBundle {
    DocBundle {
        schema: DocBundle::SCHEMA.into(),
        doc: DocMeta {
            id: BlockId::parse("20260501000001-doc0001").unwrap(),
            notebook_id: NotebookId::parse("20260501000000-nb00001").unwrap(),
            hpath: hpath.into(),
            title: hpath.trim_start_matches('/').into(),
        },
        page: PageInfo { page: 1, page_size: 50, total_blocks, total_pages: 1 },
        blocks,
    }
}

#[test]
fn renders_doc_header_and_blocks() {
    let b = bundle(
        "/Demo",
        2,
        vec![
            mk_block("20260501000010-h2aaaaa", BlockType::Heading, "## Hello"),
            mk_block("20260501000020-paaaaaa", BlockType::Paragraph, "World."),
        ],
    );
    let md = render_doc(&b);
    assert_eq!(
        md,
        "<!-- sy:doc id=20260501000001-doc0001 hpath=\"/Demo\" page=1 of 1 -->\n\n\
<!-- sy:block id=20260501000010-h2aaaaa type=h subtype= -->\n## Hello\n\n\
<!-- sy:block id=20260501000020-paaaaaa type=p subtype= -->\nWorld.\n\n"
    );
}

#[test]
fn renders_superblock_with_fence() {
    let b = bundle(
        "/Demo",
        2,
        vec![
            mk_block("20260501000001-doc0001", BlockType::Document, ""),
            mk_block("20260501000010-sb00001", BlockType::SuperBlock, "# Hello superblock"),
        ],
    );
    let md = render_doc(&b);
    assert_eq!(
        md,
        "<!-- sy:doc id=20260501000001-doc0001 hpath=\"/Demo\" page=1 of 1 -->\n\n\
<!-- sy:block id=20260501000001-doc0001 type=d subtype= -->\n\n\n\
<!-- sy:block id=20260501000010-sb00001 type=s subtype= -->\n:::sy-superblock id=20260501000010-sb00001\n# Hello superblock\n:::\n\n"
    );
}

#[test]
fn renders_subtype_in_annotation() {
    let mut block = mk_block("20260501000010-h2aaaaa", BlockType::Heading, "## Hello");
    block.subtype = Some("h2".into());
    let b = bundle("/Demo", 1, vec![block]);
    let md = render_doc(&b);
    assert_eq!(
        md,
        "<!-- sy:doc id=20260501000001-doc0001 hpath=\"/Demo\" page=1 of 1 -->\n\n\
<!-- sy:block id=20260501000010-h2aaaaa type=h subtype=h2 -->\n## Hello\n\n"
    );
}

#[test]
fn ascii_hpath_renders_as_plain_quoted_string() {
    let md = render_doc(&bundle("/Demo", 0, vec![]));
    assert!(md.contains("hpath=\"/Demo\""), "ASCII hpath should appear as a plain JSON string; got: {md}");
}

#[test]
fn cjk_hpath_renders_as_printable_codepoints() {
    let md = render_doc(&bundle("/笔记", 0, vec![]));
    assert!(md.contains("hpath=\"/笔记\""), "CJK hpath should appear as printable codepoints; got: {md}");
    assert!(!md.contains("\\u{"), "Rust-style escapes must not leak into the marker; got: {md}");
}

#[test]
fn renders_empty_doc_with_header_only() {
    let md = render_doc(&bundle("/Empty", 0, vec![]));
    assert_eq!(md, "<!-- sy:doc id=20260501000001-doc0001 hpath=\"/Empty\" page=1 of 1 -->\n\n");
}

#[test]
fn hpath_with_quote_is_json_escaped() {
    let md = render_doc(&bundle("/a\"b", 0, vec![]));
    assert!(md.contains("hpath=\"/a\\\"b\""), "got: {md}");
}

#[test]
fn render_block_appends() {
    let mut out = String::from("x");
    render_block(&mut out, &mk_block("20260501000020-paaaaaa", BlockType::Paragraph, "p"));
    assert_eq!(out, "x<!-- sy:block id=20260501000020-paaaaaa type=p subtype= -->\np\n");
}

fn block_row(id: &str, parent: &str, ty: &str, md: &str) -> BlockRow {
    BlockRow {
        id: id.into(),
        parent_id: parent.into(),
        root_id: "20260501000001-doc0001".into(),
        box_: "20260501000000-nb00001".into(),
        hpath: "/Notes/Demo".into(),
        markdown: md.into(),
        block_type: ty.into(),
        subtype: if ty == "h" { "h2".into() } else { String::new() },
        ial: String::new(),
        sort: 0,
        created: String::new(),
        updated: String::new(),
        hash: String::new(),
    }
}

#[test]
fn doc_blocks_statement_is_exact() {
    let id = BlockId::parse("20260501000001-doc0001").unwrap();
    assert_eq!(
        doc_blocks_sql(&id),
        "SELECT id, parent_id, root_id, box AS \"box_\", hpath, markdown,\n                  type, subtype, ial, sort, created, updated, hash\n           FROM blocks\n           WHERE root_id = '20260501000001-doc0001'\n           ORDER BY sort, id"
    );
}

#[test]
fn lift_rows_reports_missing_and_bad_ids() {
    let doc = BlockId::parse("20260501000001-doc0001").unwrap();
    match lift_rows(&doc, &vec![]) {
        Err(LoadError::Missing(e)) => assert_eq!(e.to_string(), "block not found: 20260501000001-doc0001"),
        other => panic!("expected Missing, got {other:?}"),
    }
    let bad = vec![block_row("20260501000010-paaaaaa", "nope", "p", "x")];
    let e = lift_rows(&doc, &bad).unwrap_err();
    assert!(e.to_string().starts_with("parsing parent id: "), "got {}", e.to_string());
}

#[test]
fn load_pipeline_orders_annotates_and_pages() {
    let doc = BlockId::parse("20260501000001-doc0001").unwrap();
    let root = "20260501000001-doc0001";
    let rows = vec![
        block_row("20260501000030-paaaaab", root, "p", "second"),
        block_row(root, "", "d", ""),
        block_row("20260501000010-h2aaaaa", root, "h", "## H"),
        block_row("20260501000020-paaaaaa", root, "p", "first"),
    ];
    let lifted = lift_rows(&doc, &rows).unwrap();
    assert_eq!(lifted.container_ids.len(), 2);
    let mut order: Vec<ChildOrder> = Vec::new();
    record_child_order(&mut order, &doc, vec![]);
    assert!(order.is_empty());
    record_child_order(
        &mut order,
        &doc,
        vec![
            "20260501000010-h2aaaaa".into(),
            "20260501000020-paaaaaa".into(),
            "20260501000030-paaaaab".into(),
        ],
    );
    let b = assemble_bundle(&doc, lifted.nodes, &order, lifted.doc_meta, PageRequest { page: 1, page_size: 3 }).unwrap();
    assert_eq!(b.schema, "siyuan-agent.doc-bundle.v1");
    assert_eq!(b.doc.title, "Demo");
    assert_eq!(b.doc.hpath, "/Notes/Demo");
    assert_eq!(b.page.total_blocks, 4);
    assert_eq!(b.page.total_pages, 2);
    let ids: Vec<&str> = b.blocks.iter().map(|n| n.id.as_str()).collect();
    assert_eq!(ids, vec![root, "20260501000010-h2aaaaa", "20260501000020-paaaaaa"]);
    assert_eq!(b.blocks[0].structural_children.len(), 3);
    let section: Vec<&str> = b.blocks[1].section_children.iter().map(|i| i.as_str()).collect();
    assert_eq!(section, vec!["20260501000020-paaaaaa", "20260501000030-paaaaab"]);
}

#[test]
fn assemble_bundle_without_document_block_fails() {
    let doc = BlockId::parse("20260501000001-doc0001").unwrap();
    let nodes = vec![mk_block("20260501000020-paaaaaa", BlockType::Paragraph, "p")];
    match assemble_bundle(&doc, nodes, &vec![], None, PageRequest::default()) {
        Err(LoadError::NoDocumentBlock) => {}
        other => panic!("expected NoDocumentBlock, got {other:?}"),
    }
}

#[test]
fn dfs_order_uses_sql_order_without_child_lists_and_keeps_every_node() {
    let doc = BlockId::parse("20260501000001-doc0001").unwrap();
    let mut orphan = mk_block("20260501000099-orphan1", BlockType::Paragraph, "o");
    orphan.parent_id = Some(BlockId::parse("20260501000098-gone001").unwrap());
    let mut d = mk_block("20260501000001-doc0001", BlockType::Document, "");
    d.parent_id = None;
    let nodes = vec![
        orphan,
        mk_block("20260501000020-paaaaaa", BlockType::Paragraph, "a"),
        d,
        mk_block("20260501000010-pbbbbbb", BlockType::Paragraph, "b"),
    ];
    let out = dfs_order(nodes, &vec![], &doc);
    let ids: Vec<&str> = out.iter().map(|n| n.id.as_str()).collect();
    assert_eq!(
        ids,
        vec!["20260501000001-doc0001", "20260501000020-paaaaaa", "20260501000010-pbbbbbb", "20260501000099-orphan1"]
    );
}

#[test]
fn relations_summarise_every_requested_block() {
    let a = BlockId::parse("20260501093000-aaa0001").unwrap();
    let b = BlockId::parse("20260501093000-bbb0002").unwrap();
    let (out_sql, in_sql, tag_sql) = relation_sql(&vec![a.clone(), b.clone()]).unwrap();
    assert_eq!(
        out_sql,
        "SELECT block_id, def_block_id, content FROM refs WHERE block_id IN ('20260501093000-aaa0001','20260501093000-bbb0002')"
    );
    assert!(in_sql.ends_with(") GROUP BY def_block_id"));
    assert!(tag_sql.starts_with("SELECT block_id, content FROM spans WHERE type LIKE '%tag%' AND block_id IN ("));
    assert!(relation_sql(&vec![]).is_none());
    let out = vec![OutgoingRow { block_id: a.to_string(), def_block_id: b.to_string(), content: "see".into() }];
    let inc = vec![
        IncomingRow { def_block_id: b.to_string(), n: 4 },
        IncomingRow { def_block_id: "bad".into(), n: 1 },
    ];
    let tags = vec![TagSpanRow { block_id: a.to_string(), content: "todo".into() }];
    let m = summarize_relations(&vec![b.clone(), a.clone()], &out, &inc, &tags);
    assert_eq!(m.len(), 2);
    assert_eq!(m[0].0, a);
    assert_eq!(m[0].1.outgoing_refs.len(), 1);
    assert_eq!(m[0].1.outgoing_refs[0].anchor, "see");
    assert_eq!(m[0].1.tags, vec!["todo".to_string()]);
    assert_eq!(m[1].0, b);
    assert_eq!(m[1].1.incoming_refs_count, 4);
    assert!(m[1].1.outgoing_refs.is_empty());
}

#[test]
fn no_rows_means_the_document_is_missing() {
    let doc = siyuan_harness::ids::BlockId::parse("20260501090000-doc0001").unwrap();
    let err = siyuan_harness::load::bundle_from_replies(&doc, &vec![], &vec![], siyuan_harness::pagination::PageRequest { page: 1, page_size: 50 })
        .unwrap_err();
    match err {
        siyuan_harness::load::LoadError::Missing(siyuan_harness::error::SiyuanError::NotFound(d)) => assert_eq!(d, "20260501090000-doc0001"),
        other => panic!("unexpected {other:?}"),
    }
}

#[test]
fn doc_format_names() {
    assert_eq!(siyuan_harness::mcp::doc_format("json"), siyuan_harness::mcp::DocFormat::Json);
    assert_eq!(siyuan_harness::mcp::doc_format("json-pretty"), siyuan_harness::mcp::DocFormat::JsonPretty);
    assert_eq!(siyuan_harness::mcp::doc_format("agent-md"), siyuan_harness::mcp::DocFormat::AgentMd);
    assert_eq!(siyuan_harness::mcp::doc_format("markdown"), siyuan_harness::mcp::DocFormat::AgentMd);
}

#[test]
fn doc_reply_renders_agent_md_and_hints_next_page() {
    let mut b = bundle("/Notes", 0, vec![]);
    b.page = PageInfo { page: 1, page_size: 50, total_blocks: 120, total_pages: 3 };
    let expected = siyuan_harness::agent_md::render_doc(&b);
    let r = siyuan_harness::mcp::doc_reply("agent-md".to_string(), &b, None);
    assert_eq!(r.format, "agent-md");
    assert_eq!(r.content, expected);
    assert_eq!(
        r.hint.as_deref(),
        Some("Pagination: this is page 1 of 3. Call again with page=2 to fetch the next page. Use format=json for structured access to block metadata.")
    );
}

#[test]
fn doc_reply_takes_json_text_and_no_hint_on_last_page() {
    let mut b = bundle("/Notes", 0, vec![]);
    b.page = PageInfo { page: 3, page_size: 50, total_blocks: 120, total_pages: 3 };
    let r = siyuan_harness::mcp::doc_reply("json".to_string(), &b, Some("{\"x\":1}".to_string()));
    assert_eq!(r.format, "json");
    assert_eq!(r.content, "{\"x\":1}");
    assert!(r.hint.is_none());
}

#[test]
fn dfs_order_walks_each_child_subtree_before_the_next_sibling() {
    let doc = BlockId::parse("20260501000001-doc0001").unwrap();
    let mut d = mk_block("20260501000001-doc0001", BlockType::Document, "");
    d.parent_id = None;
    let list = "20260501000030-laaaaaa";
    let item = "20260501000031-iaaaaaa";
    let later = "20260501000010-pbbbbbb";
    let mut it = mk_block(item, BlockType::ListItem, "i");
    it.parent_id = Some(BlockId::parse(list).unwrap());
    let nodes = vec![
        mk_block(later, BlockType::Paragraph, "b"),
        it,
        d,
        mk_block(list, BlockType::List, "l"),
    ];
    let children_map = vec![
        ChildOrder { parent: "20260501000001-doc0001".into(), kids: vec![list.into(), later.into()] },
        ChildOrder { parent: list.into(), kids: vec![item.into()] },
    ];
    let out = dfs_order(nodes, &children_map, &doc);
    let ids: Vec<&str> = out.iter().map(|n| n.id.as_str()).collect();
    assert_eq!(ids, vec!["20260501000001-doc0001", list, item, later]);
}

#[test]
fn multi_page_doc_ends_with_page_footer() {
    let mut b = bundle(
        "/Demo",
        5,
        vec![
            mk_block("20260501000030-paaaaac", BlockType::Paragraph, "c"),
            mk_block("20260501000040-paaaaad", BlockType::Paragraph, "d"),
        ],
    );
    b.page = PageInfo { page: 2, page_size: 2, total_blocks: 5, total_pages: 3 };
    let md = render_doc(&b);
    assert!(md.starts_with("<!-- sy:doc id=20260501000001-doc0001 hpath=\"/Demo\" page=2 of 3 -->\n\n"));
    assert!(md.ends_with("d\n\n<!-- sy:page 2/3 blocks remaining: 1 -->\n"), "got: {md}");
    b.page = PageInfo { page: 3, page_size: 2, total_blocks: 5, total_pages: 3 };
    b.blocks.truncate(1);
    assert!(render_doc(&b).ends_with("<!-- sy:page 3/3 blocks remaining: 0 -->\n"));
}
