//! Markdown export of knowledge cards: one document with a section per card,
//! each listing the card's fields and the relations that touch it.

use vstd::prelude::*;
use crate::models::{
    CardRelation, CardView, KnowledgeCard, MarkdownFile, RelationView, card_views, relation_views,
};
use crate::normalize::{safe_filename, safe_filename_of};
use crate::repository::{
    CardMindRepository, find_card, newest_cards, newest_relations, refused, relations_touching,
};
use crate::text::{
    append_chars, append_str, char_seqs, chars_of, join, join_chars, same_text, string_from_chars,
    string_seqs,
};

verus! {

/// The card at the other end of a relation, seen from card `id`.
pub open spec fn other_end(r: RelationView, id: Seq<char>) -> Seq<char> {
    if r.source_card_id == id {
        r.target_card_id
    } else {
        r.source_card_id
    }
}

/// The title of the stored card with the given id, or the id itself.
pub open spec fn title_or_id(cards: Seq<CardView>, id: Seq<char>) -> Seq<char> {
    match find_card(cards, id) {
        Some(c) => c.title,
        None => id,
    }
}

/// `- type -> other：reason` and a line break.
pub open spec fn relation_line(r: RelationView, id: Seq<char>, cards: Seq<CardView>) -> Seq<char> {
    "- "@ + r.relation_type + " -> "@ + title_or_id(cards, other_end(r, id)) + "："@ + r.reason
        + "\n"@
}

pub open spec fn relation_lines(rs: Seq<RelationView>, id: Seq<char>, cards: Seq<CardView>) -> Seq<
    char,
>
    decreases rs.len(),
{
    if rs.len() == 0 {
        Seq::empty()
    } else {
        relation_lines(rs.drop_last(), id, cards) + relation_line(rs.last(), id, cards)
    }
}

/// The relation list of a card section.
pub open spec fn relations_section(related: Seq<RelationView>, id: Seq<char>, cards: Seq<CardView>) -> Seq<
    char,
> {
    if related.len() == 0 {
        "- 暂无关系\n\n"@
    } else {
        relation_lines(related, id, cards) + "\n"@
    }
}

/// The section of one card: title, summary, content, source conversation,
/// tags and the relations (from `relations`, in their order) that touch it.
pub open spec fn card_section(c: CardView, relations: Seq<RelationView>, cards: Seq<CardView>) -> Seq<
    char,
> {
    "## "@ + c.title + "\n\n"@ + "摘要：\n"@ + c.summary + "\n\n"@ + "内容：\n"@ + c.content
        + "\n\n"@ + "来源对话：\n"@ + c.source_conversation_id + "\n\n"@ + "标签：\n"@ + join(
        c.tags,
        ", "@,
    ) + "\n\n"@ + "关系：\n"@ + relations_section(relations_touching(relations, c.id), c.id, cards)
}

pub open spec fn card_sections(cs: Seq<CardView>, relations: Seq<RelationView>, cards: Seq<CardView>) -> Seq<
    char,
>
    decreases cs.len(),
{
    if cs.len() == 0 {
        Seq::empty()
    } else {
        card_sections(cs.drop_last(), relations, cards) + card_section(cs.last(), relations, cards)
    }
}

/// The export document of the cards `cs`.
pub open spec fn markdown_export(cs: Seq<CardView>, relations: Seq<RelationView>, cards: Seq<CardView>) -> Seq<
    char,
> {
    "# CardMind Export\n\n"@ + card_sections(cs, relations, cards)
}

/// The name of the file that one card is exported to.
pub open spec fn card_file_name(title: Seq<char>) -> Seq<char> {
    safe_filename_of(title) + ".md"@
}

/// Joins strings with a separator.
fn join_strings(parts: &Vec<String>, sep: &str) -> (out: Vec<char>)
    ensures
        out@ == join(string_seqs(parts@), sep@),
{
    let mut pieces: Vec<Vec<char>> = Vec::new();
    let mut i: usize = 0;
    while i < parts.len()
        invariant
            i <= parts.len(),
            char_seqs(pieces@) =~= string_seqs(parts@).take(i as int),
        decreases parts.len() - i,
    {
        let ghost before = char_seqs(pieces@);
        pieces.push(chars_of(parts[i].as_str()));
        assert(char_seqs(pieces@) =~= before.push(parts@[i as int]@));
        i += 1;
    }
    assert(string_seqs(parts@).take(parts.len() as int) =~= string_seqs(parts@));
    let separator = chars_of(sep);
    join_chars(&pieces, &separator)
}

impl CardMindRepository {
    /// One relation line of the section of card `id`.
    fn relation_line_chars(&self, r: &CardRelation, id: &str) -> (out: Vec<char>)
        ensures
            out@ == relation_line(r@, id@, self@.cards),
    {
        let mut line = chars_of("- ");
        append_str(&mut line, r.relation_type.as_str());
        append_str(&mut line, " -> ");
        let other = if same_text(r.source_card_id.as_str(), id) {
            r.target_card_id.as_str()
        } else {
            r.source_card_id.as_str()
        };
        match self.get_card(other) {
            Some(c) => append_str(&mut line, c.title.as_str()),
            None => append_str(&mut line, other),
        }
        append_str(&mut line, "：");
        append_str(&mut line, r.reason.as_str());
        append_str(&mut line, "\n");
        line
    }

    /// The relation list of the section of card `id`.
    fn relations_section_chars(&self, id: &str, relations: &Vec<CardRelation>) -> (out: Vec<char>)
        ensures
            out@ == relations_section(
                relations_touching(relation_views(relations@), id@),
                id@,
                self@.cards,
            ),
    {
        let ghost rv = relation_views(relations@);
        let mut lines: Vec<char> = Vec::new();
        let mut any = false;
        let mut i: usize = 0;
        assert(rv.take(0) =~= Seq::<RelationView>::empty());
        while i < relations.len()
            invariant
                i <= relations.len(),
                rv == relation_views(relations@),
                any == (relations_touching(rv.take(i as int), id@).len() > 0),
                lines@ == relation_lines(relations_touching(rv.take(i as int), id@), id@, self@.cards),
            decreases relations.len() - i,
        {
            let r = &relations[i];
            assert(rv.take(i + 1).drop_last() =~= rv.take(i as int));
            assert(rv.take(i + 1).last() == r@);
            if same_text(r.source_card_id.as_str(), id) || same_text(r.target_card_id.as_str(), id) {
                let ghost rest = relations_touching(rv.take(i as int), id@);
                assert(rest.push(r@).drop_last() =~= rest);
                let line = self.relation_line_chars(r, id);
                append_chars(&mut lines, &line);
                any = true;
            }
            i += 1;
        }
        assert(rv.take(relations.len() as int) =~= rv);
        if !any {
            chars_of("- 暂无关系\n\n")
        } else {
            append_str(&mut lines, "\n");
            lines
        }
    }

    /// The section of one card.
    fn card_section_chars(&self, card: &KnowledgeCard, relations: &Vec<CardRelation>) -> (out: Vec<
        char,
    >)
        ensures
            out@ == card_section(card@, relation_views(relations@), self@.cards),
    {
        let mut out = chars_of("## ");
        append_str(&mut out, card.title.as_str());
        append_str(&mut out, "\n\n");
        append_str(&mut out, "摘要：\n");
        append_str(&mut out, card.summary.as_str());
        append_str(&mut out, "\n\n");
        append_str(&mut out, "内容：\n");
        append_str(&mut out, card.content.as_str());
        append_str(&mut out, "\n\n");
        append_str(&mut out, "来源对话：\n");
        append_str(&mut out, card.source_conversation_id.as_str());
        append_str(&mut out, "\n\n");
        append_str(&mut out, "标签：\n");
        let tags = join_strings(&card.tags, ", ");
        append_chars(&mut out, &tags);
        append_str(&mut out, "\n\n");
        append_str(&mut out, "关系：\n");
        let section = self.relations_section_chars(card.id.as_str(), relations);
        append_chars(&mut out, &section);
        out
    }

    /// The export document of the given cards, with the stored relations.
    fn render_markdown_export(&self, cards: &Vec<KnowledgeCard>) -> (out: String)
        ensures
            out@ == markdown_export(card_views(cards@), newest_relations(self@.relations), self@.cards),
    {
        let relations = self.list_relations();
        let ghost rv = relation_views(relations@);
        let ghost cv = card_views(cards@);
        let mut out = chars_of("# CardMind Export\n\n");
        let mut i: usize = 0;
        assert(cv.take(0) =~= Seq::<CardView>::empty());
        assert(out@ =~= "# CardMind Export\n\n"@ + card_sections(cv.take(0), rv, self@.cards));
        while i < cards.len()
            invariant
                i <= cards.len(),
                cv == card_views(cards@),
                rv == relation_views(relations@),
                out@ == "# CardMind Export\n\n"@ + card_sections(cv.take(i as int), rv, self@.cards),
            decreases cards.len() - i,
        {
            let section = self.card_section_chars(&cards[i], &relations);
            let ghost before = out@;
            append_chars(&mut out, &section);
            assert(cv.take(i + 1).drop_last() =~= cv.take(i as int));
            assert(cv.take(i + 1).last() == cards@[i as int]@);
            assert(out@ =~= "# CardMind Export\n\n"@ + card_sections(cv.take(i + 1), rv, self@.cards));
            i += 1;
        }
        assert(cv.take(cards.len() as int) =~= cv);
        string_from_chars(&out)
    }

    /// The export document of one card.
    pub fn export_card_markdown(&self, id: &str) -> (out: Result<String, String>)
        ensures
            match find_card(self@.cards, id@) {
                None => refused(out, "Knowledge card not found"@),
                Some(c) => match out {
                    Ok(s) => s@ == markdown_export(seq![c], newest_relations(self@.relations), self@.cards),
                    Err(_) => false,
                },
            },
    {
        match self.get_card(id) {
            Some(card) => {
                let cards = vec![card];
                let out = self.render_markdown_export(&cards);
                assert(card_views(cards@) =~= seq![cards@[0]@]);
                Ok(out)
            },
            None => Err(String::from_str("Knowledge card not found")),
        }
    }

    /// The export document of all cards, newest first.
    pub fn export_all_cards_markdown(&self) -> (out: String)
        ensures
            out@ == markdown_export(newest_cards(self@.cards), newest_relations(self@.relations), self@.cards),
    {
        let cards = self.list_cards();
        self.render_markdown_export(&cards)
    }

    /// The file that one card is exported to: its name is the card's title
    /// made safe for a file system, with `.md`.
    pub fn export_card_markdown_file(&self, id: &str) -> (out: Result<MarkdownFile, String>)
        ensures
            match find_card(self@.cards, id@) {
                None => refused(out, "Knowledge card not found"@),
                Some(c) => match out {
                    Ok(f) => {
                        &&& f.filename@ == card_file_name(c.title)
                        &&& f.content@ == markdown_export(seq![c], newest_relations(self@.relations), self@.cards)
                    },
                    Err(_) => false,
                },
            },
    {
        match self.get_card(id) {
            Some(card) => {
                let mut name = chars_of(safe_filename(card.title.as_str()).as_str());
                append_str(&mut name, ".md");
                let cards = vec![card];
                let content = self.render_markdown_export(&cards);
                assert(card_views(cards@) =~= seq![cards@[0]@]);
                Ok(MarkdownFile { filename: string_from_chars(&name), content })
            },
            None => Err(String::from_str("Knowledge card not found")),
        }
    }

    /// The file that all cards are exported to, `CardMind Export.md`.
    pub fn export_all_cards_markdown_file(&self) -> (out: MarkdownFile)
        ensures
            out.filename@ == "CardMind Export.md"@,
            out.content@ == markdown_export(newest_cards(self@.cards), newest_relations(self@.relations), self@.cards),
    {
        MarkdownFile {
            filename: String::from_str("CardMind Export.md"),
            content: self.export_all_cards_markdown(),
        }
    }
}

} // verus!
