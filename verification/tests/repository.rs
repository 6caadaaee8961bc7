use cardmind::models::{
    ConfirmExtractionInput, CreateConversationInput, CreateRelationInput, MergeCardsInput,
    SearchCardsInput, UpdateCardInput, UpdateRelationInput,
};
use cardmind::backups::{backup_file_name, list_backups, BackupInfo};
use cardmind::openai::PreviewStep;
use cardmind::repository::CardMindRepository;
use cardmind::search::search_filters;

#[test]
fn persists_conversation_extraction_and_graph() {
    let mut repository = CardMindRepository::new();

    let conversation = repository
        .create_conversation(CreateConversationInput {
            title: None,
            raw_content: "CardMind is a local-first knowledge graph. It uses SQLite to store knowledge cards."
                .to_string(),
            source_type: Some("manual".to_string()),
        })
        .expect("create conversation");
    let extraction = repository
        .extract_conversation(&conversation.id)
        .expect("extract cards");
    let graph = repository.get_graph();

    assert_eq!(repository.list_conversations().len(), 1);
    assert_eq!(graph.nodes.len(), extraction.cards.len());
    assert_eq!(graph.edges.len(), extraction.relations.len());
    assert!(graph.nodes.iter().any(|node| node.label == "SQLite"));
}

#[test]
fn preview_does_not_persist_until_confirmed() {
    let mut repository = CardMindRepository::new();

    let conversation = repository
        .create_conversation(CreateConversationInput {
            title: Some("预览测试".to_string()),
            raw_content: "CardMind 使用 SQLite 保存知识卡片，并形成 knowledge graph。".to_string(),
            source_type: Some("manual".to_string()),
        })
        .expect("create conversation");
    let preview = match repository
        .preview_extraction(&conversation.id, None)
        .expect("preview extraction")
    {
        PreviewStep::Ready(preview) => preview,
        PreviewStep::AskOpenAi { .. } => panic!("no key is configured"),
    };

    assert_eq!(repository.list_cards().len(), 0);
    assert!(!preview.cards.is_empty());

    repository
        .confirm_extraction(ConfirmExtractionInput {
            conversation_id: conversation.id,
            cards: preview.cards,
            relations: preview.relations,
        })
        .expect("confirm extraction");

    assert!(!repository.list_cards().is_empty());
}

#[test]
fn seed_sample_data_creates_expected_graph() {
    let mut repository = CardMindRepository::new();

    repository.seed_sample_data().expect("seed sample data");
    let graph = repository.get_graph();
    let relations = repository.list_relations();

    assert_eq!(repository.list_conversations().len(), 1);
    assert_eq!(graph.nodes.len(), 5);
    assert_eq!(graph.edges.len(), 3);
    assert!(relations
        .iter()
        .any(|relation| relation.relation_type == "supports"));
}

#[test]
fn search_cards_finds_seeded_demo_content() {
    let mut repository = CardMindRepository::new();

    repository.seed_sample_data().expect("seed sample data");
    let result = repository.search_cards(
        &SearchCardsInput {
            query: "benchmark".to_string(),
            tag: None,
            card_type: None,
            mastery_status: None,
        },
        None,
    );

    assert!(result.engine == "fts5" || result.engine == "like");
    assert!(result
        .cards
        .iter()
        .any(|card| card.title == "内存池 benchmark 分析"));
}

#[test]
fn export_markdown_contains_core_card_fields() {
    let mut repository = CardMindRepository::new();

    repository.seed_sample_data().expect("seed sample data");
    let card = repository
        .list_cards()
        .into_iter()
        .find(|card| card.title == "TinyMuduo Reactor 事件循环")
        .expect("find demo card");
    let markdown = repository
        .export_card_markdown(&card.id)
        .expect("export markdown");

    assert!(markdown.contains("# CardMind Export"));
    assert!(markdown.contains("TinyMuduo Reactor 事件循环"));
    assert!(markdown.contains("摘要："));
    assert!(markdown.contains(&card.source_conversation_id));
}

#[test]
fn update_card_refreshes_search_index() {
    let mut repository = CardMindRepository::new();

    repository.seed_sample_data().expect("seed sample data");
    let card = repository
        .list_cards()
        .into_iter()
        .find(|card| card.title == "简历优化建议")
        .expect("find demo card");
    let updated = repository
        .update_card(UpdateCardInput {
            id: card.id,
            title: "简历证据链整理".to_string(),
            summary: "把项目经历整理成可验证证据链。".to_string(),
            content: "新增一个独特搜索词 portfolio-proof，确保 FTS 或 LIKE 索引同步更新。".to_string(),
            card_type: "principle".to_string(),
            tags: vec!["简历".to_string(), "证据链".to_string()],
            mastery_status: "learning".to_string(),
        })
        .expect("update card");

    let result = repository.search_cards(
        &SearchCardsInput {
            query: "portfolio-proof".to_string(),
            tag: Some("证据链".to_string()),
            card_type: Some("principle".to_string()),
            mastery_status: Some("learning".to_string()),
        },
        None,
    );

    assert_eq!(updated.mastery_status, "learning");
    assert_eq!(result.cards.len(), 1);
    assert_eq!(result.cards[0].title, "简历证据链整理");
}

#[test]
fn updated_card_is_found_through_the_full_text_index() {
    let mut repository = CardMindRepository::new();

    repository.seed_sample_data().expect("seed sample data");
    let card = repository
        .list_cards()
        .into_iter()
        .find(|card| card.title == "简历优化建议")
        .expect("find demo card");
    let updated = repository
        .update_card(UpdateCardInput {
            id: card.id,
            title: "简历证据链整理".to_string(),
            summary: "把项目经历整理成可验证证据链。".to_string(),
            content: "新增一个独特搜索词 portfolio-proof，确保 FTS 或 LIKE 索引同步更新。".to_string(),
            card_type: "principle".to_string(),
            tags: vec!["简历".to_string(), "证据链".to_string()],
            mastery_status: "learning".to_string(),
        })
        .expect("update card");
    let input = SearchCardsInput {
        query: "portfolio-proof".to_string(),
        tag: Some("证据链".to_string()),
        card_type: Some("principle".to_string()),
        mastery_status: Some("learning".to_string()),
    };

    let filters = search_filters(&input).expect("filters");
    assert_eq!(filters.fts_query, "portfolio proof");
    let result = repository.search_cards(&input, Some(Ok(vec![updated.id.clone()])));
    assert_eq!(result.engine, "fts5");
    assert_eq!(result.cards.len(), 1);
    assert_eq!(result.cards[0].title, "简历证据链整理");
    let result = repository.search_cards(&input, Some(Ok(vec![])));
    assert_eq!(result.engine, "fts5");
    assert!(result.cards.is_empty());
}

#[test]
fn search_results_come_newest_first() {
    let mut repository = CardMindRepository::new();

    repository.seed_sample_data().expect("seed sample data");
    let all = repository.list_cards();
    let ids: Vec<String> = all.iter().map(|card| card.id.clone()).collect();
    let input = SearchCardsInput {
        query: "a".to_string(),
        tag: None,
        card_type: None,
        mastery_status: None,
    };
    for answer in [None, Some(Ok(ids))] {
        let result = repository.search_cards(&input, answer);
        assert!(!result.cards.is_empty());
        for pair in result.cards.windows(2) {
            assert!(pair[0].created_at >= pair[1].created_at);
        }
    }
}

#[test]
fn delete_card_removes_relations_and_markdown_file_is_written() {
    let mut repository = CardMindRepository::new();

    repository.seed_sample_data().expect("seed sample data");
    let export = repository.export_all_cards_markdown_file();
    assert_eq!(export.filename, "CardMind Export.md");
    let exported = export.content;
    assert!(exported.contains("# CardMind Export"));
    assert!(exported.contains("来源对话："));

    let card = repository
        .list_cards()
        .into_iter()
        .find(|card| card.title == "简历优化建议")
        .expect("find related card");
    repository.delete_card(&card.id).expect("delete card");

    assert!(repository.get_card(&card.id).is_none());
    assert!(repository
        .list_relations()
        .iter()
        .all(|relation| relation.source_card_id != card.id && relation.target_card_id != card.id));
}

#[test]
fn relation_crud_and_database_backup_work() {
    let mut repository = CardMindRepository::new();

    repository.seed_sample_data().expect("seed sample data");
    let cards = repository.list_cards();
    let source = cards.first().expect("source card");
    let target = cards.get(1).expect("target card");

    let relation = repository
        .create_relation(CreateRelationInput {
            source_card_id: source.id.clone(),
            target_card_id: target.id.clone(),
            relation_type: "application".to_string(),
            reason: "用于验证手动关系维护。".to_string(),
            confidence_bits: 0.77f64.to_bits(),
        })
        .expect("create relation");
    let updated = repository
        .update_relation(UpdateRelationInput {
            id: relation.id.clone(),
            relation_type: "contrast".to_string(),
            reason: "更新后的关系说明。".to_string(),
            confidence_bits: 0.66f64.to_bits(),
        })
        .expect("update relation");

    assert_eq!(updated.relation_type, "contrast");
    assert!(repository
        .get_card_relations(&source.id)
        .iter()
        .any(|item| item.id == relation.id));

    repository.delete_relation(&relation.id).expect("delete relation");
    assert!(!repository
        .list_relations()
        .iter()
        .any(|item| item.id == relation.id));

    let filename = backup_file_name("20260705-101500");
    let backup = BackupInfo {
        path: format!("backups/{filename}"),
        filename,
        created_at: "2026-07-05T10:15:00+00:00".to_string(),
    };
    assert!(backup.path.ends_with("cardmind-backup-20260705-101500.sqlite"));
    assert_eq!(list_backups(vec![backup]).len(), 1);
}

#[test]
fn merge_cards_moves_content_and_relations_to_target() {
    let mut repository = CardMindRepository::new();

    repository.seed_sample_data().expect("seed sample data");
    let cards = repository.list_cards();
    let source = cards
        .iter()
        .find(|card| card.title == "简历优化建议")
        .expect("source card")
        .duplicate();
    let target = cards
        .iter()
        .find(|card| card.title == "微服务拆分边界")
        .expect("target card")
        .duplicate();

    repository
        .create_relation(CreateRelationInput {
            source_card_id: source.id.clone(),
            target_card_id: target.id.clone(),
            relation_type: "related".to_string(),
            reason: "合并前用于验证关系迁移。".to_string(),
            confidence_bits: 0.8f64.to_bits(),
        })
        .expect("create relation");

    let merged = repository
        .merge_cards(MergeCardsInput {
            source_card_id: source.id.clone(),
            target_card_id: target.id.clone(),
        })
        .expect("merge cards");

    assert_eq!(merged.id, target.id);
    assert!(merged.content.contains("合并来源：简历优化建议"));
    assert!(repository.get_card(&source.id).is_none());
    assert!(repository
        .list_relations()
        .iter()
        .all(|relation| relation.source_card_id != source.id && relation.target_card_id != source.id));
}
