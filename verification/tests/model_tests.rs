use std::collections::BTreeMap;

use siyuan_harness::block::{BlockNode, BlockRole, BlockType};
use siyuan_harness::container::populate_structural_children;
use siyuan_harness::doc_meta::{pick_one_storage, title_from_hpath, ResolvedDoc};
use siyuan_harness::error::SiyuanError;
use siyuan_harness::ids::{BlockId, NotebookId};
use siyuan_harness::pagination::{paginate, PageRequest};
use siyuan_harness::section::{parse_heading_level, populate_section_children};

#[test]
fn title_from_nested_hpath() {
    assert_eq!(title_from_hpath("/Projects/Plan"), "Plan");
}

#[test]
fn title_from_top_level_hpath() {
    assert_eq!(title_from_hpath("/Plan"), "Plan");
}

#[test]
fn title_from_root_hpath_is_empty() {
    assert_eq!(title_from_hpath("/"), "");
}

#[test]
fn title_from_empty_hpath_is_empty() {
    assert_eq!(title_from_hpath(""), "");
}

#[test]
fn title_from_trailing_slash_hpath_is_empty() {
    assert_eq!(title_from_hpath("/Foo/"), "");
}

#[test]
fn title_from_double_slash_hpath_uses_last_segment() {
    assert_eq!(title_from_hpath("/A//B"), "B");
}

#[test]
fn title_from_unrooted_hpath_returns_whole_string() {
    assert_eq!(title_from_hpath("Foo"), "Foo");
}

fn nb() -> NotebookId {
    NotebookId::parse("20260501000000-nb00001").unwrap()
}

fn doc(id: &str, hpath: &str, storage_path: &str) -> ResolvedDoc {
    ResolvedDoc {
        id: BlockId::parse(id).unwrap(),
        hpath: hpath.to_string(),
        notebook_id: nb(),
        notebook_name: "Inbox".to_string(),
        title: hpath.rsplit('/').next().unwrap_or("").to_string(),
        storage_path: storage_path.to_string(),
    }
}

#[test]
fn pick_one_storage_zero_hits_is_not_found() {
    let err = pick_one_storage("/Missing".into(), Vec::new()).expect_err("0 hits must error");
    match err {
        SiyuanError::NotFound(s) => assert_eq!(s, "/Missing"),
        other => panic!("expected NotFound, got {other:?}"),
    }
}

#[test]
fn pick_one_storage_one_hit_returns_pair() {
    let docs = vec![doc("20260501090000-doc0001", "/Plan", "/20260501090000-doc0001.sy")];
    let (nb_id, path) = pick_one_storage("/Plan".into(), docs).expect("single hit must succeed");
    assert_eq!(nb_id, nb());
    assert_eq!(path, "/20260501090000-doc0001.sy");
}

#[test]
fn pick_one_storage_multiple_hits_is_ambiguous_with_all_candidates() {
    let docs = vec![
        doc("20260501090000-doc0001", "/Plan", "/20260501090000-doc0001.sy"),
        doc("20260501090000-doc0002", "/Plan", "/20260501090000-doc0002.sy"),
    ];
    let err = pick_one_storage("/Plan".into(), docs).expect_err(">1 hits must error");
    match err {
        SiyuanError::AmbiguousPath { hpath, candidates } => {
            assert_eq!(hpath, "/Plan");
            assert_eq!(candidates.len(), 2);
            assert_eq!(candidates[0].as_str(), "20260501090000-doc0001");
            assert_eq!(candidates[1].as_str(), "20260501090000-doc0002");
        }
        other => panic!("expected AmbiguousPath, got {other:?}"),
    }
}

#[test]
fn first_page_default_size() {
    let xs: Vec<i32> = (0..120).collect();
    let out = paginate(&xs, PageRequest::default());
    assert_eq!(out.items.len(), 50);
    assert_eq!(out.items[0], 0);
    assert_eq!(out.total, 120);
    assert_eq!(out.total_pages, 3);
    assert_eq!(out.page, 1);
}

#[test]
fn last_page_partial() {
    let xs: Vec<i32> = (0..120).collect();
    let out = paginate(&xs, PageRequest { page: 3, page_size: 50 });
    assert_eq!(out.items.len(), 20);
    assert_eq!(out.items[0], 100);
}

#[test]
fn empty_input_yields_one_empty_page() {
    let xs: Vec<i32> = vec![];
    let out = paginate(&xs, PageRequest::default());
    assert!(out.items.is_empty());
    assert_eq!(out.total_pages, 1);
    assert_eq!(out.page, 1);
}

#[test]
fn paginate_clamps_page_and_size() {
    let xs: Vec<i32> = (0..7).collect();
    let out = paginate(&xs, PageRequest { page: 99, page_size: 0 });
    assert_eq!(out.page_size, 1);
    assert_eq!(out.total_pages, 7);
    assert_eq!(out.page, 7);
    assert_eq!(out.items, vec![6]);
    let first = paginate(&xs, PageRequest { page: 0, page_size: 3 });
    assert_eq!(first.page, 1);
    assert_eq!(first.items, vec![0, 1, 2]);
    // Pages tile the list: concatenating every page gives it back.
    let mut all = Vec::new();
    for p in 1..=3 {
        all.extend(paginate(&xs, PageRequest { page: p, page_size: 3 }).items);
    }
    assert_eq!(all, xs);
}

fn mk(id: &str, parent: Option<&str>, root: &str, ty: BlockType, sub: Option<&str>) -> BlockNode {
    BlockNode {
        id: BlockId::parse(id).unwrap(),
        root_id: BlockId::parse(root).unwrap(),
        parent_id: parent.map(|p| BlockId::parse(p).unwrap()),
        notebook_id: NotebookId::parse("20260501000000-nb00001").unwrap(),
        block_type: ty,
        subtype: sub.map(String::from),
        role: BlockRole::for_block_type(ty),
        markdown: String::new(),
        kramdown: None,
        ial: None,
        attrs: BTreeMap::new(),
        hash: None,
        created: None,
        updated: None,
        sort: None,
        structural_children: vec![],
        section_children: vec![],
    }
}

#[test]
fn h2_section_stops_at_next_h2() {
    let root = "20260501000001-doc0001";
    let mut blocks = vec![
        mk("20260501000010-h2aaaaa", Some(root), root, BlockType::Heading, Some("h2")),
        mk("20260501000020-paaaaaa", Some(root), root, BlockType::Paragraph, None),
        mk("20260501000030-paaaaab", Some(root), root, BlockType::Paragraph, None),
        mk("20260501000040-h2bbbbb", Some(root), root, BlockType::Heading, Some("h2")),
        mk("20260501000050-paaaaac", Some(root), root, BlockType::Paragraph, None),
    ];
    populate_section_children(&mut blocks);
    let h2a_section: Vec<_> = blocks[0].section_children.iter().map(|id| id.as_str().to_owned()).collect();
    assert_eq!(h2a_section, vec!["20260501000020-paaaaaa", "20260501000030-paaaaab"]);
}

#[test]
fn h2_section_includes_h3_inside_it() {
    let root = "20260501000001-doc0001";
    let mut blocks = vec![
        mk("20260501000010-h2aaaaa", Some(root), root, BlockType::Heading, Some("h2")),
        mk("20260501000020-h3aaaaa", Some(root), root, BlockType::Heading, Some("h3")),
        mk("20260501000030-paaaaab", Some(root), root, BlockType::Paragraph, None),
        mk("20260501000040-h2bbbbb", Some(root), root, BlockType::Heading, Some("h2")),
    ];
    populate_section_children(&mut blocks);
    let ids: Vec<_> = blocks[0].section_children.iter().map(|id| id.as_str().to_owned()).collect();
    assert_eq!(ids, vec!["20260501000020-h3aaaaa", "20260501000030-paaaaab"]);
}

#[test]
fn section_ignores_other_parents_and_stops_at_h1() {
    let root = "20260501000001-doc0001";
    let list = "20260501000002-list001";
    let mut blocks = vec![
        mk("20260501000010-h3aaaaa", Some(root), root, BlockType::Heading, Some("h3")),
        mk("20260501000020-paaaaaa", Some(list), root, BlockType::Paragraph, None),
        mk("20260501000030-paaaaab", Some(root), root, BlockType::Paragraph, None),
        mk("20260501000040-h1bbbbb", Some(root), root, BlockType::Heading, Some("h1")),
        mk("20260501000050-paaaaac", Some(root), root, BlockType::Paragraph, None),
    ];
    populate_section_children(&mut blocks);
    let ids: Vec<_> = blocks[0].section_children.iter().map(|id| id.as_str().to_owned()).collect();
    assert_eq!(ids, vec!["20260501000030-paaaaab"]);
    assert!(blocks[1].section_children.is_empty());
    assert_eq!(blocks[3].section_children.len(), 1);
}

#[test]
fn heading_levels_parse_and_default_to_six() {
    assert_eq!(parse_heading_level(Some("h1")), 1);
    assert_eq!(parse_heading_level(Some("h6")), 6);
    assert_eq!(parse_heading_level(Some("h7")), 6);
    assert_eq!(parse_heading_level(Some("x")), 6);
    assert_eq!(parse_heading_level(None), 6);
}

#[test]
fn structural_children_fill_first_container_only() {
    let root = "20260501000001-doc0001";
    let mut blocks = vec![
        mk(root, None, root, BlockType::Document, None),
        mk("20260501000020-paaaaaa", Some(root), root, BlockType::Paragraph, None),
        mk("20260501000030-list001", Some(root), root, BlockType::List, None),
        mk("20260501000040-item001", Some("20260501000030-list001"), root, BlockType::ListItem, None),
        mk("20260501000050-paaaaab", Some(root), root, BlockType::Paragraph, None),
    ];
    populate_structural_children(&mut blocks);
    let ids: Vec<_> = blocks[0].structural_children.iter().map(|id| id.as_str().to_owned()).collect();
    assert_eq!(ids, vec!["20260501000020-paaaaaa", "20260501000030-list001", "20260501000050-paaaaab"]);
    assert_eq!(blocks[2].structural_children.len(), 1);
    assert!(blocks[1].structural_children.is_empty());
    assert!(blocks[3].structural_children.is_empty());
}

#[test]
fn childless_container_gets_an_empty_structure() {
    let root = "20260501000001-doc0001";
    let mut blocks = vec![mk(root, None, root, BlockType::Document, None)];
    blocks[0].structural_children = vec![BlockId::parse("20260501000099-stale01").unwrap()];
    populate_structural_children(&mut blocks);
    assert!(blocks[0].structural_children.is_empty());
}

#[test]
fn structural_children_are_idempotent() {
    let root = "20260501000001-doc0001";
    let mut blocks = vec![
        mk(root, None, root, BlockType::Document, None),
        mk("20260501000030-list001", Some(root), root, BlockType::List, None),
        mk("20260501000040-item001", Some("20260501000030-list001"), root, BlockType::ListItem, None),
    ];
    populate_structural_children(&mut blocks);
    let once: Vec<Vec<String>> =
        blocks.iter().map(|b| b.structural_children.iter().map(|i| i.as_str().to_owned()).collect()).collect();
    populate_structural_children(&mut blocks);
    let twice: Vec<Vec<String>> =
        blocks.iter().map(|b| b.structural_children.iter().map(|i| i.as_str().to_owned()).collect()).collect();
    assert_eq!(once, twice);
    assert_eq!(once[0], vec!["20260501000030-list001".to_string()]);
}
