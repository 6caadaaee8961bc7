use cardmind::codec::{tags_column, tags_from_column};
use cardmind::backups::{is_sqlite_file_name, list_backups, restore_safety_file_name, BackupInfo};
use cardmind::extractor::{
    create_fallback_cards, create_fallback_title, extract_knowledge_cards, truncate,
};
use cardmind::ids::create_id;
use cardmind::models::{
    CardRelation, ConfirmExtractionInput, Conversation, CreateConversationInput,
    CreateRelationInput, ExtractedCardDraft, ExtractedRelationDraft, ExtractionResult,
    KnowledgeCard, MergeCardsInput, SearchCardsInput, UpdateCardInput, UpdateRelationInput,
};
use cardmind::normalize::{
    create_title, normalize_mastery_status, normalize_relation_type, normalize_tags,
    safe_filename, sanitize_fts_query,
};
use cardmind::openai::{
    checked_extraction, choose_api_key, extract_output_text, extract_with_openai_or_mock,
    finish_connection_test, finish_openai_preview, format_openai_error, prepare_api_key,
    reply_text_or_error, test_openai_connection, validate_extraction, PreviewStep, ResponseBody,
    ResponseItem, ResponsePart,
};
use cardmind::repository::{CardMindRepository, DrawnRows};
use cardmind::search::{like_match_chars, search_filters};

fn s(text: &str) -> String {
    text.to_string()
}

fn chars(text: &str) -> Vec<char> {
    text.chars().collect()
}

fn conversation(id: &str, created_at: &str) -> Conversation {
    Conversation {
        id: s(id),
        title: s("对话"),
        raw_content: s("内容"),
        source_type: s("manual"),
        created_at: s(created_at),
        updated_at: s(created_at),
    }
}

fn card(id: &str, title: &str, tags: &[&str], created_at: &str) -> KnowledgeCard {
    KnowledgeCard {
        id: s(id),
        title: s(title),
        summary: format!("{title} summary"),
        content: format!("{title} content"),
        card_type: s("concept"),
        tags: tags.iter().map(|t| s(t)).collect(),
        mastery_status: s("new"),
        source_conversation_id: s("conv_1"),
        created_at: s(created_at),
        updated_at: s(created_at),
    }
}

fn relation(id: &str, source: &str, target: &str, created_at: &str) -> CardRelation {
    CardRelation {
        id: s(id),
        source_card_id: s(source),
        target_card_id: s(target),
        relation_type: s("related"),
        reason: s("because"),
        confidence_bits: 0.5f64.to_bits(),
        created_at: s(created_at),
    }
}

/// conv_1 with cards A (oldest) and B, and the relation A -> B.
fn small_repository() -> CardMindRepository {
    match CardMindRepository::from_tables(
        vec![conversation("conv_1", "2024-01-01T00:00:00+00:00")],
        vec![
            card("card_a", "A", &["x", "y"], "2024-01-01T00:00:00+00:00"),
            card("card_b", "B", &["Rust"], "2024-01-02T00:00:00+00:00"),
        ],
        vec![relation("rel_1", "card_a", "card_b", "2024-01-03T00:00:00+00:00")],
        None,
    ) {
        Ok(r) => r,
        Err(e) => panic!("{e}"),
    }
}

fn err<T>(out: Result<T, String>) -> String {
    match out {
        Ok(_) => panic!("expected an error"),
        Err(e) => e,
    }
}

fn search(
    repository: &CardMindRepository,
    query: &str,
    tag: Option<&str>,
    fts: Option<Result<Vec<String>, String>>,
) -> (Vec<String>, String) {
    let result = repository.search_cards(
        &SearchCardsInput {
            query: s(query),
            tag: tag.map(s),
            card_type: None,
            mastery_status: None,
        },
        fts,
    );
    (result.cards.iter().map(|c| c.title.clone()).collect(), result.engine)
}

#[test]
fn extraction_links_each_card_to_the_next() {
    let result = extract_knowledge_cards("Product work: local-first cards in a knowledge graph on SQLite.");
    let titles: Vec<&str> = result.cards.iter().map(|c| c.title.as_str()).collect();
    assert_eq!(titles, vec!["产品化", "本地优先", "知识卡片", "知识图谱", "SQLite"]);
    assert_eq!(result.relations.len(), 4);
    for (i, r) in result.relations.iter().enumerate() {
        assert_eq!(r.source_title, result.cards[i].title);
        assert_eq!(r.target_title, result.cards[i + 1].title);
        assert_eq!(r.confidence_bits, 0.72f64.to_bits());
    }
    assert_eq!(result.relations[2].relation_type, "contains");
    assert_eq!(result.relations[3].relation_type, "application");
    assert_eq!(result.relations[0].relation_type, "related");
    assert_eq!(
        result.relations[0].reason,
        "Mock extraction connected \"产品化\" with \"本地优先\" because they appear in the same imported conversation."
    );
}

#[test]
fn keywords_match_whatever_their_case() {
    let result = extract_knowledge_cards("WE STORE EVERYTHING IN SQLITE");
    assert_eq!(result.cards.len(), 1);
    assert_eq!(result.cards[0].title, "SQLite");
    assert!(result.relations.is_empty());
}

#[test]
fn short_text_gives_one_insight_card() {
    let result = extract_knowledge_cards("hi");
    assert_eq!(result.cards.len(), 1);
    assert_eq!(result.cards[0].title, "Imported Conversation Insight");
    assert_eq!(result.cards[0].content, "hi");
    assert_eq!(result.cards[0].tags, vec![s("imported"), s("conversation")]);
    assert!(result.relations.is_empty());
}

#[test]
fn fallback_takes_at_most_three_long_sentences() {
    let cards = create_fallback_cards(
        "first long sentence. short! second long sentence? third long sentence。fourth long sentence.",
    );
    assert_eq!(cards.len(), 3);
    assert_eq!(cards[0].content, "first long sentence");
    assert_eq!(cards[1].content, "second long sentence");
    assert_eq!(cards[0].title, "Conversation Insight 1");
    assert_eq!(cards[2].title, "Conversation Insight 3");
    assert!(cards.iter().all(|c| c.card_type == "note"));
}

#[test]
fn fallback_titles_and_truncation() {
    assert_eq!(create_fallback_title("short one", 1), "Conversation Insight 2");
    assert_eq!(
        create_fallback_title("a   sentence  with   many words that goes on and on", 0),
        "a sentence with many words t..."
    );
    assert_eq!(truncate("abcdefghij", 5), "ab...");
    assert_eq!(truncate("abc", 5), "abc");
}

#[test]
fn relation_types_and_mastery_are_normalised() {
    assert_eq!(normalize_relation_type("  supports "), "supports");
    assert_eq!(normalize_relation_type("prerequisite"), "prerequisite");
    assert_eq!(normalize_relation_type("depends-on"), "related");
    assert_eq!(normalize_relation_type(normalize_relation_type("x")), "related");
    assert_eq!(normalize_mastery_status(" mastered"), "mastered");
    assert_eq!(normalize_mastery_status("learning"), "learning");
    assert_eq!(normalize_mastery_status("done"), "new");
    assert_eq!(
        normalize_tags(&vec![s(" a "), s("   "), s("b")]),
        vec![s("a"), s("b")]
    );
}

#[test]
fn titles_and_file_names() {
    assert_eq!(create_title("\n   \n  第一行标题  \n第二行"), "第一行标题");
    assert_eq!(create_title("   \n  "), "Untitled conversation");
    assert_eq!(create_title(&"x".repeat(70)).chars().count(), 60);
    assert_eq!(safe_filename("a<b>:c\"d/e\\f|g?h*i"), "a-b--c-d-e-f-g-h-i");
    assert_eq!(safe_filename("  ..notes.. "), "notes");
    assert_eq!(safe_filename(" ... "), "CardMind Card");
    assert_eq!(safe_filename(&"长".repeat(100)).chars().count(), 80);
}

#[test]
fn full_text_queries_keep_search_characters() {
    assert_eq!(sanitize_fts_query("  hello, world!  "), "hello world");
    assert_eq!(sanitize_fts_query("C++ 内存池 \"benchmark\" --"), "C 内存池 benchmark");
    assert_eq!(sanitize_fts_query("héllo wörld_1"), "héllo wörld_1");
    assert_eq!(sanitize_fts_query("!!! ???"), "");
    assert_eq!(sanitize_fts_query("portfolio-proof"), "portfolio proof");
    assert_eq!(sanitize_fts_query("a.b,c  d--e"), "a b c d e");
    assert_eq!(sanitize_fts_query(&sanitize_fts_query("x+y z")), "x y z");
}

#[test]
fn ids_are_prefixed_uuids() {
    let id = create_id("card");
    assert!(id.starts_with("card_"));
    assert_eq!(id.len(), "card_".len() + 36);
    assert_ne!(create_id("card"), id);
}

#[test]
fn conversations_get_titles_and_sources() {
    let mut repository = CardMindRepository::new();
    let c = repository
        .create_conversation(CreateConversationInput {
            title: Some(s("   ")),
            raw_content: s("\n  First line  \nsecond"),
            source_type: None,
        })
        .expect("create");
    assert_eq!(c.title, "First line");
    assert_eq!(c.source_type, "manual");
    assert!(c.id.starts_with("conv_"));
    let read = repository.get_conversation(&c.id).expect("stored");
    assert_eq!(read.raw_content, "\n  First line  \nsecond");
    assert!(repository.get_conversation("conv_missing").is_none());
}

#[test]
fn lists_are_newest_first() {
    let repository = match CardMindRepository::from_tables(
        vec![
            conversation("conv_1", "2024-01-01T00:00:00+00:00"),
            conversation("conv_3", "2024-03-01T00:00:00+00:00"),
            conversation("conv_2", "2024-02-01T00:00:00+00:00"),
        ],
        vec![],
        vec![],
        None,
    ) {
        Ok(r) => r,
        Err(e) => panic!("{e}"),
    };
    let ids: Vec<String> = repository.list_conversations().iter().map(|c| c.id.clone()).collect();
    assert_eq!(ids, vec![s("conv_3"), s("conv_2"), s("conv_1")]);
}

#[test]
fn stored_rows_must_keep_the_schema() {
    let duplicate = CardMindRepository::from_tables(
        vec![conversation("conv_1", "t"), conversation("conv_1", "t")],
        vec![],
        vec![],
        None,
    );
    assert_eq!(err(duplicate), "stored rows break the schema");
    let orphan = CardMindRepository::from_tables(
        vec![],
        vec![card("card_a", "A", &[], "t")],
        vec![],
        None,
    );
    assert_eq!(err(orphan), "stored rows break the schema");
    let mut bad_type = relation("rel_1", "card_a", "card_b", "t");
    bad_type.relation_type = s("depends");
    let refused = CardMindRepository::from_tables(
        vec![conversation("conv_1", "t")],
        vec![card("card_a", "A", &[], "t"), card("card_b", "B", &[], "t")],
        vec![bad_type],
        None,
    );
    assert_eq!(err(refused), "stored rows break the schema");
}

#[test]
fn extraction_errors() {
    let mut repository = small_repository();
    assert_eq!(err(repository.extract_conversation("conv_missing")), "Conversation not found");
    assert_eq!(
        err(repository.confirm_extraction(ConfirmExtractionInput {
            conversation_id: s("conv_missing"),
            cards: vec![],
            relations: vec![],
        })),
        "Conversation not found"
    );
    let refused = repository.confirm_extraction(ConfirmExtractionInput {
        conversation_id: s("conv_1"),
        cards: vec![
            ExtractedCardDraft {
                title: s("P"),
                summary: s("p"),
                content: s("p"),
                card_type: s("concept"),
                tags: vec![],
            },
            ExtractedCardDraft {
                title: s("Q"),
                summary: s("q"),
                content: s("q"),
                card_type: s("concept"),
                tags: vec![],
            },
        ],
        relations: vec![ExtractedRelationDraft {
            source_title: s("P"),
            target_title: s("Q"),
            relation_type: s("depends"),
            reason: s("r"),
            confidence_bits: 0.5f64.to_bits(),
        }],
    });
    assert_eq!(
        err(refused),
        "CHECK constraint failed: relation_type IN (\n      'prerequisite',\n      'contains',\n      'related',\n      'contrast',\n      'application',\n      'source',\n      'supports'\n    )"
    );
    assert_eq!(repository.list_cards().len(), 2);
}

fn draft(title: &str) -> ExtractedCardDraft {
    ExtractedCardDraft {
        title: s(title),
        summary: s("s"),
        content: s("c"),
        card_type: s("concept"),
        tags: vec![],
    }
}

fn link(from: &str, to: &str, confidence: f64) -> ExtractedRelationDraft {
    ExtractedRelationDraft {
        source_title: s(from),
        target_title: s(to),
        relation_type: s("related"),
        reason: s("r"),
        confidence_bits: confidence.to_bits(),
    }
}

#[test]
fn confirmed_confidences_must_lie_in_the_unit_range() {
    let mut repository = small_repository();
    let confirm = |relations: Vec<ExtractedRelationDraft>| ConfirmExtractionInput {
        conversation_id: s("conv_1"),
        cards: vec![draft("P"), draft("Q")],
        relations,
    };
    assert_eq!(
        err(repository.confirm_extraction(confirm(vec![link("P", "Q", 0.5), link("Q", "P", 1.5)]))),
        "CHECK constraint failed: confidence >= 0 AND confidence <= 1"
    );
    assert_eq!(
        err(repository.confirm_extraction(confirm(vec![link("P", "Q", f64::NAN), link("Q", "P", 1.5)]))),
        "NOT NULL constraint failed: card_relations.confidence"
    );
    assert_eq!(repository.list_cards().len(), 2);
    let saved = repository
        .confirm_extraction(confirm(vec![link("P", "Q", -0.0), link("P", "Missing", 7.0)]))
        .expect("confirm");
    assert_eq!(saved.relations.len(), 1);
    assert_eq!(saved.relations[0].confidence_bits, (-0.0f64).to_bits());
}

#[test]
fn manual_confidences_are_clamped() {
    let mut repository = small_repository();
    let create = |confidence: f64| CreateRelationInput {
        source_card_id: s("card_b"),
        target_card_id: s("card_a"),
        relation_type: s("supports"),
        reason: s("r"),
        confidence_bits: confidence.to_bits(),
    };
    let high = repository.create_relation(create(1.5)).expect("create");
    assert_eq!(f64::from_bits(high.confidence_bits), 1.0);
    let low = repository.create_relation(create(-3.0)).expect("create");
    assert_eq!(f64::from_bits(low.confidence_bits), 0.0);
    let inside = repository.create_relation(create(0.25)).expect("create");
    assert_eq!(f64::from_bits(inside.confidence_bits), 0.25);
    let infinite = repository.create_relation(create(f64::INFINITY)).expect("create");
    assert_eq!(f64::from_bits(infinite.confidence_bits), 1.0);
    assert_eq!(
        err(repository.create_relation(create(f64::NAN))),
        "NOT NULL constraint failed: card_relations.confidence"
    );
    let updated = repository
        .update_relation(UpdateRelationInput {
            id: s("rel_1"),
            relation_type: s("contains"),
            reason: s("r"),
            confidence_bits: (-1.0f64).to_bits(),
        })
        .expect("update");
    assert_eq!(f64::from_bits(updated.confidence_bits), 0.0);
    assert_eq!(
        err(repository.update_relation(UpdateRelationInput {
            id: s("rel_1"),
            relation_type: s("contains"),
            reason: s("r"),
            confidence_bits: f64::NAN.to_bits(),
        })),
        "NOT NULL constraint failed: card_relations.confidence"
    );
}

#[test]
fn confirmed_relations_need_both_titles() {
    let mut repository = small_repository();
    let saved = repository
        .confirm_extraction(ConfirmExtractionInput {
            conversation_id: s("conv_1"),
            cards: vec![ExtractedCardDraft {
                title: s("P"),
                summary: s("p"),
                content: s("p"),
                card_type: s("concept"),
                tags: vec![s("t")],
            }],
            relations: vec![
                ExtractedRelationDraft {
                    source_title: s("P"),
                    target_title: s("A"),
                    relation_type: s("depends"),
                    reason: s("r"),
                    confidence_bits: 0.5f64.to_bits(),
                },
                ExtractedRelationDraft {
                    source_title: s("P"),
                    target_title: s("P"),
                    relation_type: s("supports"),
                    reason: s("self"),
                    confidence_bits: 0.5f64.to_bits(),
                },
            ],
        })
        .expect("confirm");
    assert_eq!(saved.cards.len(), 1);
    assert_eq!(saved.cards[0].mastery_status, "new");
    assert_eq!(saved.cards[0].source_conversation_id, "conv_1");
    assert_eq!(saved.relations.len(), 1);
    assert_eq!(saved.relations[0].relation_type, "supports");
    assert_eq!(saved.relations[0].source_card_id, saved.cards[0].id);
    assert_eq!(repository.list_cards().len(), 3);
}

#[test]
fn card_edits_and_their_errors() {
    let mut repository = small_repository();
    let edit = |id: &str, title: &str| UpdateCardInput {
        id: s(id),
        title: s(title),
        summary: s(" new summary "),
        content: s("new content"),
        card_type: s("method"),
        tags: vec![s(" tag "), s("")],
        mastery_status: s("mastered"),
    };
    assert_eq!(err(repository.update_card(edit("card_missing", "T"))), "Knowledge card not found");
    assert_eq!(
        err(repository.update_card(edit("card_a", "   "))),
        "标题、摘要、内容和类型不能为空。"
    );
    let updated = repository.update_card(edit("card_a", " Title ")).expect("update");
    assert_eq!(updated.title, "Title");
    assert_eq!(updated.summary, "new summary");
    assert_eq!(updated.tags, vec![s("tag")]);
    assert_eq!(updated.mastery_status, "mastered");
    assert_eq!(updated.created_at, "2024-01-01T00:00:00+00:00");
    let read = repository.get_card("card_a").expect("stored");
    assert_eq!(read.title, "Title");
    assert_eq!(read.updated_at, updated.updated_at);
    assert_eq!(err(repository.delete_card("card_missing")), "Knowledge card not found");
}

#[test]
fn deleting_a_card_keeps_the_others() {
    let mut repository = small_repository();
    repository.delete_card("card_b").expect("delete");
    assert!(repository.get_card("card_b").is_none());
    assert_eq!(repository.get_card("card_a").expect("kept").title, "A");
    assert!(repository.list_relations().is_empty());
}

#[test]
fn merge_errors_and_tags() {
    let mut repository = small_repository();
    let merge = |from: &str, to: &str| MergeCardsInput { source_card_id: s(from), target_card_id: s(to) };
    assert_eq!(err(repository.merge_cards(merge("card_a", "card_a"))), "不能把卡片合并到它自己。");
    assert_eq!(err(repository.merge_cards(merge("card_x", "card_a"))), "Source knowledge card not found");
    assert_eq!(err(repository.merge_cards(merge("card_a", "card_x"))), "Target knowledge card not found");
    let merged = repository.merge_cards(merge("card_a", "card_b")).expect("merge");
    assert_eq!(merged.id, "card_b");
    assert_eq!(merged.tags, vec![s("Rust"), s("x"), s("y")]);
    assert_eq!(merged.content, "B content\n\n---\n\n合并来源：A\n\nA content");
    assert!(repository.get_card("card_a").is_none());
    assert!(repository.list_relations().is_empty());
}

#[test]
fn merging_moves_relations_and_drops_repeats() {
    let mut repository = match CardMindRepository::from_tables(
        vec![conversation("conv_1", "t")],
        vec![
            card("card_a", "A", &["x"], "t1"),
            card("card_b", "B", &["X"], "t2"),
            card("card_c", "C", &[], "t3"),
        ],
        vec![
            relation("rel_1", "card_a", "card_c", "t4"),
            relation("rel_2", "card_b", "card_c", "t5"),
        ],
        None,
    ) {
        Ok(r) => r,
        Err(e) => panic!("{e}"),
    };
    let merged = repository
        .merge_cards(MergeCardsInput { source_card_id: s("card_a"), target_card_id: s("card_b") })
        .expect("merge");
    assert_eq!(merged.tags, vec![s("X")]);
    let relations = repository.list_relations();
    assert_eq!(relations.len(), 1);
    assert_eq!(relations[0].source_card_id, "card_b");
    assert_eq!(relations[0].target_card_id, "card_c");
}

#[test]
fn relation_errors() {
    let mut repository = small_repository();
    let create = |from: &str, to: &str, reason: &str| CreateRelationInput {
        source_card_id: s(from),
        target_card_id: s(to),
        relation_type: s(" weird "),
        reason: s(reason),
        confidence_bits: 0.3f64.to_bits(),
    };
    assert_eq!(
        err(repository.create_relation(create("card_a", "card_a", "r"))),
        "关系的来源卡片和目标卡片不能相同。"
    );
    assert_eq!(err(repository.create_relation(create("card_a", "card_x", "r"))), "关系引用的卡片不存在。");
    assert_eq!(err(repository.create_relation(create("card_b", "card_a", "  "))), "关系理由不能为空。");
    let made = repository.create_relation(create("card_b", "card_a", " why ")).expect("create");
    assert_eq!(made.relation_type, "related");
    assert_eq!(made.reason, "why");
    assert!(made.id.starts_with("rel_"));
    assert_eq!(repository.get_relation(&made.id).expect("stored").reason, "why");
    let update = |id: &str, reason: &str| UpdateRelationInput {
        id: s(id),
        relation_type: s("source"),
        reason: s(reason),
        confidence_bits: 0.9f64.to_bits(),
    };
    assert_eq!(err(repository.update_relation(update("rel_1", " "))), "关系理由不能为空。");
    assert_eq!(err(repository.update_relation(update("rel_x", "r"))), "Card relation not found");
    let updated = repository.update_relation(update("rel_1", "r2")).expect("update");
    assert_eq!(updated.relation_type, "source");
    assert_eq!(updated.confidence_bits, 0.9f64.to_bits());
    assert_eq!(repository.get_card_relations("card_a").len(), 2);
    assert_eq!(err(repository.delete_relation("rel_x")), "Card relation not found");
}

#[test]
fn sample_data_is_written_once() {
    let mut repository = CardMindRepository::new();
    let seeded = repository.seed_sample_data().expect("seed");
    assert_eq!(seeded.cards.len(), 5);
    assert_eq!(seeded.relations.len(), 3);
    let confidences: Vec<f64> = seeded.relations.iter().map(|r| f64::from_bits(r.confidence_bits)).collect();
    assert_eq!(confidences, vec![0.9, 0.92, 0.95]);
    assert_eq!(seeded.relations[1].relation_type, "supports");
    assert_eq!(
        err(repository.seed_sample_data()),
        "已有数据时不会自动写入示例数据。"
    );
    assert_eq!(repository.list_cards().len(), 5);
    assert_eq!(repository.list_conversations()[0].source_type, "sample");
}

#[test]
fn markdown_export_of_one_card() {
    let repository = small_repository();
    let markdown = repository.export_card_markdown("card_a").expect("export");
    assert_eq!(
        markdown,
        "# CardMind Export\n\n## A\n\n摘要：\nA summary\n\n内容：\nA content\n\n来源对话：\nconv_1\n\n标签：\nx, y\n\n关系：\n- related -> B：because\n\n"
    );
    assert_eq!(err(repository.export_card_markdown("card_x")), "Knowledge card not found");
    let file = repository.export_card_markdown_file("card_b").expect("file");
    assert_eq!(file.filename, "B.md");
    assert!(file.content.ends_with("- related -> A：because\n\n"));
}

#[test]
fn markdown_export_of_all_cards() {
    let mut repository = small_repository();
    repository.delete_relation("rel_1").expect("delete");
    let markdown = repository.export_all_cards_markdown();
    assert_eq!(
        markdown,
        "# CardMind Export\n\n## B\n\n摘要：\nB summary\n\n内容：\nB content\n\n来源对话：\nconv_1\n\n标签：\nRust\n\n关系：\n- 暂无关系\n\n## A\n\n摘要：\nA summary\n\n内容：\nA content\n\n来源对话：\nconv_1\n\n标签：\nx, y\n\n关系：\n- 暂无关系\n\n"
    );
    let empty = CardMindRepository::new();
    assert_eq!(empty.export_all_cards_markdown(), "# CardMind Export\n\n");
}

#[test]
fn search_uses_like_semantics() {
    let repository = small_repository();
    let (titles, engine) = search(&repository, "  ", None, None);
    assert_eq!((titles, engine.as_str()), (vec![s("B"), s("A")], "like"));
    let (titles, engine) = search(&repository, "", None, Some(Ok(vec![])));
    assert_eq!((titles, engine.as_str()), (vec![s("B"), s("A")], "fts5"));
    let (titles, _) = search(&repository, "A SUMMARY", None, None);
    assert_eq!(titles, vec![s("A")]);
    let (titles, _) = search(&repository, "c_nt%t", None, None);
    assert_eq!(titles, vec![s("B"), s("A")]);
    let (titles, _) = search(&repository, "", Some("rust"), None);
    assert_eq!(titles, vec![s("B")]);
    let (titles, _) = search(&repository, "", Some("\"x\",\"y\""), None);
    assert_eq!(titles, vec![s("A")]);
    let (titles, engine) = search(&repository, "anything", None, Some(Ok(vec![s("card_a"), s("card_z")])));
    assert_eq!((titles, engine.as_str()), (vec![s("A")], "fts5"));
    let (titles, engine) = search(&repository, "anything", Some("rust"), Some(Ok(vec![s("card_a"), s("card_b")])));
    assert_eq!((titles, engine.as_str()), (vec![s("B")], "fts5"));
    let (titles, engine) = search(&repository, "!!!", None, Some(Ok(vec![])));
    assert_eq!((titles, engine.as_str()), (vec![s("B"), s("A")], "fts5"));
    let (titles, engine) = search(&repository, "B content", None, Some(Err(s("fts5: syntax error"))));
    assert_eq!((titles, engine.as_str()), (vec![s("B")], "like"));
}

#[test]
fn search_filters_are_trimmed() {
    let blank = search_filters(&SearchCardsInput {
        query: s("  "),
        tag: Some(s(" ")),
        card_type: None,
        mastery_status: Some(s("")),
    });
    assert!(blank.is_none());
    let f = search_filters(&SearchCardsInput {
        query: s(" C++ pool "),
        tag: Some(s(" perf ")),
        card_type: Some(s(" concept")),
        mastery_status: None,
    })
    .expect("filters");
    assert_eq!(f.query, "C++ pool");
    assert_eq!(f.fts_query, "C pool");
    assert_eq!(f.tag, "perf");
    assert_eq!(f.card_type, "concept");
    assert_eq!(f.mastery_status, "");
}

#[test]
fn like_patterns() {
    assert!(like_match_chars(&chars("%b_n%"), &chars("benchmark")));
    assert!(like_match_chars(&chars("BENCH%"), &chars("benchmark")));
    assert!(!like_match_chars(&chars("bench"), &chars("benchmark")));
    assert!(like_match_chars(&chars("%"), &chars("")));
    assert!(!like_match_chars(&chars("_"), &chars("")));
    assert!(!like_match_chars(&chars("%É%"), &chars("é")));
    assert!(like_match_chars(&chars("%内存%"), &chars("内存池")));
}

#[test]
fn openai_settings_and_status() {
    let mut repository = CardMindRepository::new();
    assert_eq!(repository.openai_model(), "gpt-5.4-mini");
    let status = repository.openai_status(Some(s("  ")), None);
    assert!(!status.has_api_key);
    assert!(status.key_source.is_none());
    let status = repository.openai_status(Some(s("sk-env")), Some(s("sk-stored")));
    assert_eq!(status.key_source, Some(s("环境变量 OPENAI_API_KEY")));
    let status = repository.openai_status(None, Some(s("sk-stored")));
    assert_eq!(status.key_source, Some(s("Windows Credential Manager")));
    assert_eq!(
        err(repository.set_openai_model("  ", None, None)),
        "OpenAI 模型不能为空。"
    );
    let status = repository.set_openai_model(" gpt-test ", None, None).expect("set");
    assert_eq!(status.model, "gpt-test");
    assert_eq!(repository.openai_model(), "gpt-test");
    assert_eq!(choose_api_key(Some(s(" ")), Some(s("k"))), Some(s("k")));
    assert_eq!(prepare_api_key("  sk-1 ").expect("key"), "sk-1");
    assert_eq!(err(prepare_api_key("   ")), "OpenAI API Key 不能为空。");
}

#[test]
fn previews_ask_openai_only_with_a_key() {
    let mut repository = CardMindRepository::new();
    let c = repository
        .create_conversation(CreateConversationInput {
            title: None,
            raw_content: s("SQLite notes"),
            source_type: None,
        })
        .expect("create");
    match repository.preview_extraction(&c.id, Some(s("sk-1"))).expect("preview") {
        PreviewStep::AskOpenAi { conversation_text, api_key, model } => {
            assert_eq!(conversation_text, "SQLite notes");
            assert_eq!(api_key, "sk-1");
            assert_eq!(model, "gpt-5.4-mini");
        }
        PreviewStep::Ready(_) => panic!("a key is configured"),
    }
    assert_eq!(err(repository.preview_extraction("conv_x", None)), "Conversation not found");
    match extract_with_openai_or_mock("SQLite notes", None, "m") {
        PreviewStep::Ready(p) => {
            assert_eq!(p.provider, "mock");
            assert_eq!(p.warning, Some(s("未配置 OpenAI API Key，已使用本地 mock 抽取。")));
            assert_eq!(p.cards[0].title, "SQLite");
        }
        PreviewStep::AskOpenAi { .. } => panic!("no key"),
    }
    let failed = finish_openai_preview("SQLite notes", Err(s("boom")));
    assert_eq!(failed.warning, Some(s("OpenAI 抽取失败，已回退到本地 mock：boom")));
    let ok = finish_openai_preview(
        "x",
        Ok(ExtractionResult { cards: vec![], relations: vec![] }),
    );
    assert_eq!(ok.provider, "openai");
    assert!(ok.warning.is_none());
}

#[test]
fn openai_errors_are_explained() {
    assert_eq!(
        format_openai_error(401, "bad key"),
        "OpenAI HTTP 401 Unauthorized：API Key 无效或已过期。 原始错误：bad key"
    );
    assert_eq!(
        format_openai_error(400, "The MODEL does not exist"),
        "OpenAI HTTP 400 Bad Request：请检查模型名称和账号权限。 原始错误：The MODEL does not exist"
    );
    assert!(format_openai_error(503, "").starts_with("OpenAI HTTP 503 Service Unavailable：OpenAI 服务暂时不可用。"));
    let long = "y".repeat(600);
    assert!(format_openai_error(418, &long).ends_with(&"y".repeat(500)));
    assert!(finish_connection_test(200, "").is_ok());
    assert_eq!(
        err(finish_connection_test(429, "slow down")),
        "OpenAI HTTP 429 Too Many Requests：请求过于频繁或额度不足。 原始错误：slow down"
    );
    let probe = test_openai_connection(Some(s("sk")), "m").expect("probe");
    assert_eq!(probe.input, "请只回复 OK，用于验证 CardMind 的 OpenAI 连接。");
}

#[test]
fn reply_texts() {
    let part = |text: Option<&str>, output_text: Option<&str>| ResponsePart {
        text: text.map(s),
        output_text: output_text.map(s),
    };
    let body = ResponseBody {
        output_text: None,
        output: Some(vec![
            ResponseItem { content: vec![part(None, None)] },
            ResponseItem { content: vec![part(None, Some("second")), part(Some("third"), None)] },
        ]),
    };
    assert_eq!(extract_output_text(&body), Some(s("second")));
    let top = ResponseBody { output_text: Some(s("top")), output: None };
    assert_eq!(extract_output_text(&top), Some(s("top")));
    let none = ResponseBody { output_text: None, output: None };
    assert_eq!(extract_output_text(&none), None);
    assert_eq!(reply_text_or_error(200, "", Ok(top)).expect("text"), "top");
    assert_eq!(
        err(reply_text_or_error(200, "", Ok(none))),
        "OpenAI 响应中没有可解析文本。"
    );
    assert_eq!(err(reply_text_or_error(200, "", Err(s("bad json")))), "bad json");
    assert!(err(reply_text_or_error(404, "nope", Err(s("unused")))).starts_with("OpenAI HTTP 404 Not Found："));
}

#[test]
fn extractions_are_checked() {
    let good_card = ExtractedCardDraft {
        title: s("T"),
        summary: s("S"),
        content: s("C"),
        card_type: s("concept"),
        tags: vec![],
    };
    let blank_card = ExtractedCardDraft { summary: s("  "), ..good_card.duplicate() };
    let relation = |t: &str| ExtractedRelationDraft {
        source_title: s("T"),
        target_title: s("T"),
        relation_type: s(t),
        reason: s("r"),
        confidence_bits: 0.5f64.to_bits(),
    };
    assert!(validate_extraction(&ExtractionResult { cards: vec![good_card.duplicate()], relations: vec![relation("supports")] }).is_ok());
    assert_eq!(
        err(validate_extraction(&ExtractionResult { cards: vec![blank_card], relations: vec![relation("nope")] })),
        "OpenAI 返回了字段为空的卡片。"
    );
    assert_eq!(
        err(validate_extraction(&ExtractionResult { cards: vec![good_card.duplicate()], relations: vec![relation("related"), relation("nope")] })),
        "OpenAI 返回了非法关系类型：nope"
    );
    assert_eq!(err(checked_extraction(Err(s("parse error")))), "parse error");
    let checked = checked_extraction(Ok(ExtractionResult { cards: vec![good_card], relations: vec![] })).expect("ok");
    assert_eq!(checked.cards.len(), 1);
}

#[test]
fn backups_are_sqlite_files_newest_first() {
    let info = |name: &str, at: &str| BackupInfo { path: format!("b/{name}"), filename: s(name), created_at: s(at) };
    let listed = list_backups(vec![
        info("old.sqlite", "2024-01-01"),
        info("notes.txt", "2024-05-01"),
        info("new.SQLite", "2024-03-01"),
        info(".sqlite", "2024-04-01"),
        info("mid.db.sqlite", "2024-02-01"),
    ]);
    let names: Vec<String> = listed.iter().map(|b| b.filename.clone()).collect();
    assert_eq!(names, vec![s("new.SQLite"), s("mid.db.sqlite"), s("old.sqlite")]);
    assert!(is_sqlite_file_name("..sqlite"));
    assert!(!is_sqlite_file_name("sqlite"));
    assert!(!is_sqlite_file_name("a.sqlite3"));
    assert_eq!(restore_safety_file_name("20260101-000000"), "cardmind-before-restore-20260101-000000.sqlite");
}

#[test]
fn tags_are_stored_as_json_text() {
    let tags = vec![s("简历"), s("say \"hi\""), s("a\\b")];
    let text = tags_column(&tags);
    assert_eq!(text, "[\"简历\",\"say \\\"hi\\\"\",\"a\\\\b\"]");
    assert_eq!(tags_from_column(&text), tags);
    assert_eq!(tags_from_column("[\"x\", \"y\"]"), vec![s("x"), s("y")]);
    assert!(tags_from_column("not json").is_empty());
    assert!(tags_from_column("[1, 2]").is_empty());
    assert_eq!(tags_column(&vec![]), "[]");
    let controls = vec![s("t\tn\nr\rb\u{8}f\u{c}u\u{1}x\u{1f}"), s("/é")];
    let text = tags_column(&controls);
    assert_eq!(text, "[\"t\\tn\\nr\\rb\\bf\\fu\\u0001x\\u001f\",\"/é\"]");
    assert_eq!(tags_from_column(&text), controls);
}

#[test]
fn edited_relations_read_back() {
    let mut repository = small_repository();
    let updated = repository
        .update_relation(UpdateRelationInput {
            id: s("rel_1"),
            relation_type: s(" prerequisite "),
            reason: s("  first A, then B "),
            confidence_bits: 0.4f64.to_bits(),
        })
        .expect("update");
    let read = repository.get_relation("rel_1").expect("stored");
    assert_eq!(read.relation_type, "prerequisite");
    assert_eq!(read.reason, "first A, then B");
    assert_eq!(read.confidence_bits, updated.confidence_bits);
    assert_eq!(read.created_at, "2024-01-03T00:00:00+00:00");
}

fn texts(items: &[&str]) -> Vec<String> {
    items.iter().map(|t| s(t)).collect()
}

#[test]
fn rows_with_given_ids() {
    let mut repository = small_repository();
    let input = || CreateConversationInput { title: None, raw_content: s("x"), source_type: None };
    assert_eq!(
        err(repository.insert_conversation(input(), s("conv_1"), s("t1"))),
        "UNIQUE constraint failed: conversations.id"
    );
    let c = repository.insert_conversation(input(), s("conv_2"), s("t2")).expect("insert");
    assert_eq!((c.id.as_str(), c.title.as_str(), c.created_at.as_str(), c.updated_at.as_str()), ("conv_2", "x", "t2", "t2"));
    let relation = || CreateRelationInput {
        source_card_id: s("card_b"),
        target_card_id: s("card_a"),
        relation_type: s("contrast"),
        reason: s(" r "),
        confidence_bits: 0.5f64.to_bits(),
    };
    assert_eq!(
        err(repository.insert_relation(relation(), s("rel_1"), s("t3"))),
        "UNIQUE constraint failed: card_relations.id"
    );
    let r = repository.insert_relation(relation(), s("rel_2"), s("t3")).expect("insert");
    assert_eq!((r.id.as_str(), r.reason.as_str(), r.created_at.as_str()), ("rel_2", "r", "t3"));
    assert_eq!(repository.list_relations().len(), 2);
}

#[test]
fn extraction_with_given_ids() {
    let mut repository = small_repository();
    let cards = vec![draft("A2"), draft("B2")];
    let relations = vec![link("A2", "B2", 0.5), link("A2", "Z", 0.5), link("B2", "A2", 0.25)];
    let drawn = |card_ids: &[&str], relation_ids: &[&str]| DrawnRows {
        card_ids: texts(card_ids),
        card_stamps: texts(&["s1", "s2"]),
        relation_ids: texts(relation_ids),
        relation_stamps: texts(&["r1", "r2", "r3"]),
    };
    let clash = drawn(&["card_a", "card_new"], &["x", "y", "z"]);
    assert_eq!(
        err(repository.persist_extraction_with("conv_1", &cards, &relations, &clash)),
        "UNIQUE constraint failed: knowledge_cards.id"
    );
    let twice = drawn(&["card_p", "card_p"], &["x", "y", "z"]);
    assert_eq!(
        err(repository.persist_extraction_with("conv_1", &cards, &relations, &twice)),
        "UNIQUE constraint failed: knowledge_cards.id"
    );
    let relation_clash = drawn(&["card_p", "card_q"], &["rel_1", "unused", "rel_new"]);
    assert_eq!(
        err(repository.persist_extraction_with("conv_1", &cards, &relations, &relation_clash)),
        "UNIQUE constraint failed: card_relations.id"
    );
    assert_eq!(repository.list_cards().len(), 2);
    let unused_repeat = drawn(&["card_p", "card_q"], &["rel_x", "rel_x", "rel_y"]);
    let saved = repository
        .persist_extraction_with("conv_1", &cards, &relations, &unused_repeat)
        .expect("saved");
    assert_eq!(saved.cards.len(), 2);
    assert_eq!((saved.cards[0].id.as_str(), saved.cards[0].title.as_str(), saved.cards[0].created_at.as_str()), ("card_p", "A2", "s1"));
    assert_eq!(saved.relations.len(), 2);
    assert_eq!((saved.relations[0].id.as_str(), saved.relations[0].source_card_id.as_str(), saved.relations[0].target_card_id.as_str()), ("rel_x", "card_p", "card_q"));
    assert_eq!((saved.relations[1].id.as_str(), saved.relations[1].created_at.as_str()), ("rel_y", "r3"));
    assert_eq!(repository.list_cards().len(), 4);
    assert_eq!(repository.list_relations().len(), 3);
    let nothing = DrawnRows { card_ids: vec![], card_stamps: vec![], relation_ids: texts(&["rel_1"]), relation_stamps: texts(&["t"]) };
    let empty = repository
        .persist_extraction_with("conv_1", &vec![], &vec![link("A", "B", 0.5)], &nothing)
        .expect("nothing to save");
    assert!(empty.cards.is_empty() && empty.relations.is_empty());
}

#[test]
fn sample_data_with_given_ids() {
    let drawn = |card_ids: &[&str]| DrawnRows {
        card_ids: texts(card_ids),
        card_stamps: texts(&["t", "t", "t", "t", "t"]),
        relation_ids: texts(&["r1", "r2", "r3"]),
        relation_stamps: texts(&["t", "t", "t"]),
    };
    let mut repository = CardMindRepository::new();
    assert_eq!(
        err(repository.seed_sample_data_with(s("conv_s"), s("t"), &drawn(&["c1", "c2", "c3", "c4", "c1"]))),
        "UNIQUE constraint failed: knowledge_cards.id"
    );
    assert_eq!(repository.list_conversations().len(), 1);
    let mut fresh = CardMindRepository::new();
    let seeded = fresh
        .seed_sample_data_with(s("conv_s"), s("t"), &drawn(&["c1", "c2", "c3", "c4", "c5"]))
        .expect("seeded");
    assert_eq!(seeded.cards.len(), 5);
    assert_eq!(seeded.relations.len(), 3);
    assert_eq!(seeded.relations[0].source_card_id, "c1");
    assert_eq!(fresh.list_conversations()[0].id, "conv_s");
}

#[test]
fn card_relations_are_the_filtered_list() {
    let repository = small_repository();
    let all: Vec<String> = repository.list_relations().iter().map(|r| r.id.clone()).collect();
    let touching: Vec<String> = repository.get_card_relations("card_b").iter().map(|r| r.id.clone()).collect();
    assert_eq!(all, touching);
    assert!(repository.get_card_relations("card_x").is_empty());
}
