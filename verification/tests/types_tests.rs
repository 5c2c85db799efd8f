use siyuan_harness::block::{BlockRole, BlockType};
use siyuan_harness::error::{ErrorKind, SiyuanError};
use siyuan_harness::ids::{BlockId, IdError, NotebookId};
use siyuan_harness::position::{parse_position_kind, Position, PositionKind};

#[test]
fn block_type_round_trips_through_kernel_form() {
    for t in [
        BlockType::Document,
        BlockType::Heading,
        BlockType::Paragraph,
        BlockType::List,
        BlockType::ListItem,
        BlockType::SuperBlock,
        BlockType::Blockquote,
        BlockType::Code,
        BlockType::QueryEmbed,
        BlockType::AttributeView,
        BlockType::ThematicBreak,
    ] {
        assert_eq!(BlockType::from_kernel(t.as_kernel()), t, "round trip {t:?}");
    }
}

#[test]
fn unknown_kernel_type_falls_back() {
    assert_eq!(BlockType::from_kernel("xyzzy"), BlockType::Unknown);
}

#[test]
fn unknown_round_trips_via_fallback() {
    assert_eq!(BlockType::Unknown.as_kernel(), "unknown");
    assert_eq!(BlockType::from_kernel("unknown"), BlockType::Unknown);
    assert_eq!(BlockType::from_kernel(""), BlockType::Unknown);
}

#[test]
fn role_classification_covers_all_variants() {
    let cases: &[(BlockType, BlockRole)] = &[
        (BlockType::Document, BlockRole::Container),
        (BlockType::SuperBlock, BlockRole::Container),
        (BlockType::List, BlockRole::Container),
        (BlockType::ListItem, BlockRole::Container),
        (BlockType::Blockquote, BlockRole::Container),
        (BlockType::Heading, BlockRole::HeadingSectionOwner),
        (BlockType::Paragraph, BlockRole::Leaf),
        (BlockType::Code, BlockRole::Leaf),
        (BlockType::Math, BlockRole::Leaf),
        (BlockType::Table, BlockRole::Leaf),
        (BlockType::ThematicBreak, BlockRole::Leaf),
        (BlockType::QueryEmbed, BlockRole::Leaf),
        (BlockType::AttributeView, BlockRole::Leaf),
        (BlockType::Html, BlockRole::Leaf),
        (BlockType::IFrame, BlockRole::Leaf),
        (BlockType::Widget, BlockRole::Leaf),
        (BlockType::Audio, BlockRole::Leaf),
        (BlockType::Video, BlockRole::Leaf),
        (BlockType::Unknown, BlockRole::Leaf),
    ];
    for (bt, expected) in cases {
        assert_eq!(BlockRole::for_block_type(*bt), *expected, "{bt:?}");
    }
}

#[test]
fn kernel_names_are_the_short_codes() {
    assert_eq!(BlockType::Document.as_kernel(), "d");
    assert_eq!(BlockType::ThematicBreak.as_kernel(), "tb");
    assert_eq!(BlockType::QueryEmbed.as_kernel(), "query_embed");
    assert_eq!(BlockType::from_kernel("av"), BlockType::AttributeView);
    assert_eq!(BlockType::from_kernel("D"), BlockType::Unknown);
}

#[test]
fn kind_matches_variant() {
    let err = SiyuanError::Auth;
    assert_eq!(err.kind(), ErrorKind::Auth);
}

#[test]
fn api_error_displays_code_and_msg() {
    let err = SiyuanError::Api { code: 21, msg: "Bad token".into() };
    let s = err.to_string();
    assert!(s.contains("21"));
    assert!(s.contains("Bad token"));
}

#[test]
fn error_messages_are_exact() {
    assert_eq!(SiyuanError::Api { code: -3, msg: "x".into() }.to_string(), "SiYuan API returned code -3: x");
    assert_eq!(SiyuanError::NotFound("/A".into()).to_string(), "block not found: /A");
    assert_eq!(SiyuanError::GraphLimit { limit: 500 }.to_string(), "graph result exceeded limit (500); refine query");
    let amb = SiyuanError::AmbiguousPath {
        hpath: "/Plan".into(),
        candidates: vec![
            BlockId::parse("20260501090000-doc0001").unwrap(),
            BlockId::parse("20260501090000-doc0002").unwrap(),
        ],
    };
    assert_eq!(
        amb.to_string(),
        "path is ambiguous: \"/Plan\" resolves to multiple ids: [BlockId(\"20260501090000-doc0001\"), BlockId(\"20260501090000-doc0002\")]"
    );
    assert_eq!(amb.kind(), ErrorKind::AmbiguousPath);
    assert_eq!(SiyuanError::Parse("p".into()).kind(), ErrorKind::Parse);
}

#[test]
fn accepts_canonical_block_id() {
    let id = BlockId::parse("20260501093000-abc1234").unwrap();
    assert_eq!(id.as_str(), "20260501093000-abc1234");
}

#[test]
fn rejects_uppercase() {
    assert!(BlockId::parse("20260501093000-ABC1234").is_err());
}

#[test]
fn rejects_short_suffix() {
    assert!(BlockId::parse("20260501093000-abc123").is_err());
}

#[test]
fn rejects_missing_dash() {
    assert!(BlockId::parse("20260501093000abc1234").is_err());
}

#[test]
fn from_str_works() {
    let id: BlockId = "20260501093000-abc1234".parse().unwrap();
    assert_eq!(id.to_string(), "20260501093000-abc1234");
}

#[test]
fn id_error_quotes_the_input() {
    let err = BlockId::parse("nope").unwrap_err();
    assert_eq!(err, IdError::Invalid("nope".into()));
    assert_eq!(
        err.to_string(),
        "invalid SiYuan block id: \"nope\" (expected 14-digit timestamp + '-' + 7 lowercase alnum)"
    );
    assert!(NotebookId::parse("20260501000000-nb00001").is_ok());
    assert!(NotebookId::parse("20260501000000-nb0000").is_err());
    assert!(BlockId::parse("20260501093000-abc1234\n").is_err());
}

#[test]
fn anchor_id_extracts_underlying_id() {
    let id = BlockId::parse("20260501093000-abc1234").unwrap();
    let pos = Position::AppendChild { container_id: id.clone() };
    assert_eq!(pos.anchor_id(), &id);
}

const KIND_TAGS: [(PositionKind, &str); 8] = [
    (PositionKind::AfterBlock, "after_block"),
    (PositionKind::BeforeBlock, "before_block"),
    (PositionKind::AppendChild, "append_child"),
    (PositionKind::PrependChild, "prepend_child"),
    (PositionKind::AppendSection, "append_section"),
    (PositionKind::PrependSection, "prepend_section"),
    (PositionKind::AppendDoc, "append_doc"),
    (PositionKind::PrependDoc, "prepend_doc"),
];

#[test]
fn from_position_kind_and_block_id_produces_correct_position() {
    let id = BlockId::parse("20260501093000-abc1234").unwrap();
    for (kind, expected_kind_tag) in KIND_TAGS {
        let pos = Position::from((kind, id.clone()));
        assert_eq!(parse_position_kind(expected_kind_tag), Ok(pos.kind()));
        assert_eq!(pos.anchor_id(), &id);
    }
}

#[test]
fn position_kind_roundtrip_through_position() {
    let id = BlockId::parse("20260501093000-abc1234").unwrap();
    for (kind, tag) in KIND_TAGS {
        let pos = Position::from((kind, id.clone()));
        let deser_kind = parse_position_kind(tag).unwrap();
        assert_eq!(pos.kind(), deser_kind);
        assert_eq!(kind, deser_kind);
    }
}

#[test]
fn unknown_position_kind_is_refused_with_the_variant_list() {
    assert_eq!(
        parse_position_kind("AfterBlock"),
        Err("invalid position kind: unknown variant `AfterBlock`, expected one of `after_block`, `before_block`, \
             `append_child`, `prepend_child`, `append_section`, `prepend_section`, `append_doc`, `prepend_doc`"
            .to_string())
    );
}

#[test]
fn parse_position_kind_all_variants() {
    let valid = [
        "after_block",
        "before_block",
        "append_child",
        "prepend_child",
        "append_section",
        "prepend_section",
        "append_doc",
        "prepend_doc",
    ];
    for s in valid {
        assert!(parse_position_kind(s).is_ok(), "should parse {s}");
    }
}

#[test]
fn parse_position_kind_rejects_invalid() {
    assert!(parse_position_kind("invalid_kind").is_err());
    assert!(parse_position_kind("AfterBlock").is_err());
    assert!(parse_position_kind("").is_err());
}

#[test]
fn parse_position_kind_maps_names() {
    assert_eq!(parse_position_kind("append_section"), Ok(PositionKind::AppendSection));
    assert_eq!(parse_position_kind("prepend_doc"), Ok(PositionKind::PrependDoc));
}

#[test]
fn non_ascii_digits_are_refused() {
    assert!(BlockId::parse("٢٠٢٦٠٥٠١٠٩٣٠٠٠-abc1234").is_err());
    assert!(NotebookId::parse("２0260501093000-abc1234").is_err());
}
