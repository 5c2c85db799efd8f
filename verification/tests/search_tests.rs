use siyuan_harness::graph::{Direction, GraphWalk, NodeRow, Phase, RefRow, WalkStep, EDGE_LIMIT, NODE_PREVIEW_LEN};
use siyuan_harness::ids::BlockId;
use siyuan_harness::tag::{
    build_search_by_tag_sql, escape_tag, search_by_tag_sql, tag_hits, truncate, TagError, TagRow, TAG_PREVIEW_LEN,
};

#[test]
fn truncate_short_string_unchanged() {
    assert_eq!(truncate("hello", 10), "hello");
}

#[test]
fn truncate_long_ascii() {
    let s = "a".repeat(TAG_PREVIEW_LEN * 2);
    let out = truncate(&s, TAG_PREVIEW_LEN);
    assert!(out.ends_with('…'));
    assert!(out.chars().count() <= TAG_PREVIEW_LEN + 1);
}

#[test]
fn truncate_exact_boundary() {
    assert_eq!(truncate("abc", 3), "abc");
    assert_eq!(truncate("abcd", 3), "abc…");
    assert_eq!(truncate("", 0), "");
    assert_eq!(truncate("x", 0), "…");
}

#[test]
fn build_search_by_tag_sql_includes_limit_clause() {
    let stmt = build_search_by_tag_sql("alpha", 7);
    assert!(stmt.trim_end().ends_with("LIMIT 7"), "SQL must end with `LIMIT 7`; got: {stmt}");
    assert!(stmt.contains("s.content = 'alpha'"));
}

#[test]
fn build_search_by_tag_sql_propagates_arbitrary_limit() {
    let stmt = build_search_by_tag_sql("beta", 1);
    assert!(stmt.trim_end().ends_with("LIMIT 1"));
    let stmt = build_search_by_tag_sql("beta", 1000);
    assert!(stmt.trim_end().ends_with("LIMIT 1000"));
}

#[test]
fn tag_search_statement_exact_and_escaped() {
    assert_eq!(escape_tag("it's"), "it''s");
    let stmt = search_by_tag_sql("o'k", 5).unwrap();
    assert_eq!(
        stmt,
        "SELECT b.id AS block_id, b.root_id, b.markdown\n         FROM blocks b\n         JOIN spans s ON s.block_id = b.id\n         WHERE s.type LIKE '%tag%' AND s.content = 'o''k'\n         ORDER BY b.updated DESC\n         LIMIT 5"
    );
}

#[test]
fn search_by_tag_rejects_zero_limit() {
    let err = search_by_tag_sql("anything", 0).expect_err("limit=0 must be rejected");
    assert!(err.to_string().contains("greater than 0"));
}

#[test]
fn tag_hits_lift_rows_and_fail_on_bad_ids() {
    let rows = vec![TagRow {
        block_id: "20260501093000-aaa0001".into(),
        root_id: "20260501093000-doc0001".into(),
        markdown: "#t# body".into(),
    }];
    let hits = tag_hits(&rows).unwrap();
    assert_eq!(hits.len(), 1);
    assert_eq!(hits[0].block_id.as_str(), "20260501093000-aaa0001");
    assert_eq!(hits[0].markdown_preview, "#t# body");
    let bad = vec![TagRow { block_id: "x".into(), root_id: "y".into(), markdown: String::new() }];
    match tag_hits(&bad) {
        Err(TagError::BadBlockId(_)) => {}
        other => panic!("expected a block-id error, got {other:?}"),
    }
    let bad_root = vec![TagRow { block_id: "20260501093000-aaa0001".into(), root_id: "y".into(), markdown: String::new() }];
    let e = tag_hits(&bad_root).unwrap_err();
    assert!(e.to_string().starts_with("parsing root id: invalid SiYuan block id: \"y\""));
}

#[test]
fn truncate_cjk_no_panic() {
    let s = "中".repeat(200);
    let out = truncate(&s, 100);
    assert!(out.ends_with('…'));
    assert!(out.chars().count() <= 101);
}

#[test]
fn truncate_emoji_no_panic() {
    let s = "😀".repeat(50);
    let out = truncate(&s, 10);
    assert!(out.ends_with('…'));
}

#[test]
fn markdown_preview_cjk_safe() {
    let md = "中".repeat(200);
    let preview = truncate(&md, NODE_PREVIEW_LEN);
    assert!(preview.ends_with('…'));
    assert!(preview.chars().count() <= 101);
}

fn id(s: &str) -> BlockId {
    BlockId::parse(s).unwrap()
}

fn edge(src: &str, tgt: &str, anchor: &str) -> RefRow {
    RefRow { block_id: src.into(), def_block_id: tgt.into(), content: anchor.into() }
}

fn query_sql(step: WalkStep) -> String {
    match step {
        WalkStep::QueryRefs { sql, .. } => sql,
        WalkStep::FetchNodes { sql } => panic!("expected a reference query, got node query {sql}"),
    }
}

#[test]
fn edge_dedup_prevents_duplicate_push() {
    let a = "20260501093000-aaa0001";
    let b = "20260501093000-bbb0002";
    let mut walk = GraphWalk::new(&id(a), 1, Direction::Both);
    let out_sql = query_sql(walk.next_step());
    assert_eq!(out_sql, "SELECT block_id, def_block_id, content FROM refs WHERE block_id IN ('20260501093000-aaa0001')");
    walk.absorb(&vec![edge(a, b, "anchor")]);
    assert_eq!(walk.phase(), Phase::NeedIn);
    let in_sql = query_sql(walk.next_step());
    assert_eq!(in_sql, "SELECT block_id, def_block_id, content FROM refs WHERE def_block_id IN ('20260501093000-aaa0001')");
    // The incoming pass re-discovers A→B, and finds other anchors and B→A.
    walk.absorb(&vec![edge(a, b, "anchor"), edge(a, b, "other-anchor"), edge(b, a, "backlink")]);
    let fetch = walk.next_step();
    let sql = match fetch {
        WalkStep::FetchNodes { sql } => sql,
        other => panic!("expected node query, got {other:?}"),
    };
    assert_eq!(sql, "SELECT id, root_id, type, markdown FROM blocks WHERE id IN ('20260501093000-aaa0001','20260501093000-bbb0002')");
    let g = walk.finish(&vec![]);
    assert_eq!(g.edges.len(), 3, "duplicate edge must not be added");
    assert_eq!(g.edges[0].anchor, "anchor");
    assert_eq!(g.edges[1].anchor, "other-anchor");
    assert_eq!(g.edges[2].source.as_str(), b);
    assert!(!g.truncated);
    assert_eq!(g.direction, "both");
    assert_eq!(g.schema, "siyuan-agent.graph.v1");
}

#[test]
fn graph_walk_visits_levels_and_builds_sorted_nodes() {
    let c = "20260501093000-ccc0001";
    let x = "20260501093000-xxx0002";
    let y = "20260501093000-yyy0003";
    let mut walk = GraphWalk::new(&id(c), 2, Direction::Outgoing);
    query_sql(walk.next_step());
    walk.absorb(&vec![edge(c, y, ""), edge(c, x, ""), edge(c, "bad", "")]);
    assert_eq!(walk.phase(), Phase::LevelStart);
    let level2 = query_sql(walk.next_step());
    assert_eq!(
        level2,
        "SELECT block_id, def_block_id, content FROM refs WHERE block_id IN ('20260501093000-xxx0002','20260501093000-yyy0003')"
    );
    walk.absorb(&vec![]);
    match walk.next_step() {
        WalkStep::FetchNodes { .. } => {}
        other => panic!("expected node query, got {other:?}"),
    }
    let rows = vec![
        NodeRow { id: y.into(), root_id: c.into(), block_type: "p".into(), markdown: "m".repeat(150) },
        NodeRow { id: c.into(), root_id: c.into(), block_type: "d".into(), markdown: "doc".into() },
        NodeRow { id: "junk".into(), root_id: c.into(), block_type: "p".into(), markdown: String::new() },
        NodeRow { id: c.into(), root_id: c.into(), block_type: "d".into(), markdown: "doc again".into() },
    ];
    let g = walk.finish(&rows);
    assert_eq!(g.depth, 2);
    assert_eq!(g.direction, "outgoing");
    assert_eq!(g.edges.len(), 2);
    assert_eq!(g.nodes.len(), 2);
    assert_eq!(g.nodes[0].id.as_str(), c);
    assert_eq!(g.nodes[0].markdown_preview, "doc again");
    assert_eq!(g.nodes[1].markdown_preview.chars().count(), 101);
}

#[test]
fn graph_walk_caps_edges_and_marks_truncated() {
    let c = "20260501093000-ccc0001";
    let mut walk = GraphWalk::new(&id(c), 1, Direction::Outgoing);
    query_sql(walk.next_step());
    let mut rows = Vec::new();
    for i in 0..(EDGE_LIMIT + 5) {
        rows.push(edge(c, c, &format!("a{i}")));
    }
    walk.absorb(&rows);
    match walk.next_step() {
        WalkStep::FetchNodes { .. } => {}
        other => panic!("expected node query, got {other:?}"),
    }
    let g = walk.finish(&vec![]);
    assert_eq!(g.edges.len(), EDGE_LIMIT);
    assert!(g.truncated);
}

#[test]
fn graph_walk_depth_zero_fetches_center_only() {
    let c = "20260501093000-ccc0001";
    let mut walk = GraphWalk::new(&id(c), 0, Direction::Incoming);
    match walk.next_step() {
        WalkStep::FetchNodes { sql } => {
            assert_eq!(sql, "SELECT id, root_id, type, markdown FROM blocks WHERE id IN ('20260501093000-ccc0001')")
        }
        other => panic!("expected node query, got {other:?}"),
    }
    let g = walk.finish(&vec![]);
    assert_eq!(g.direction, "incoming");
    assert!(g.edges.is_empty());
}
