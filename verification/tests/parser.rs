use std::collections::HashMap;

use rag_engine::parser::parser::{
    paragraph_key, split_paragraph_key, ChunkLocation, DataChunk, PDFParser, PageText,
    MAX_CHARACTERS,
};

fn page(number: usize, text: &str) -> PageText {
    PageText { page_number: number, text: text.to_string() }
}

#[test]
fn new_values_are_empty() {
    let location = ChunkLocation::new();
    assert_eq!(location.file_name, "");
    assert_eq!(location.page_number, 0);
    assert_eq!(location.paragraph_number, 0);
    let chunk = DataChunk::new();
    assert_eq!(chunk.chunk_content, "");
    assert_eq!(chunk.location.paragraph_number, 0);
    let parser = PDFParser::new();
    assert_eq!(parser.chunk_location.file_name, "");
    assert_eq!(parser.data_chunk.chunk_content, "");
}

#[test]
fn parse_file_maps_page_numbers_to_texts() {
    let mut parser = PDFParser::new();
    let pages = vec![page(1, "first page"), page(2, "second page")];
    let map = parser.parse_file("book.pdf", &pages);
    assert_eq!(parser.chunk_location.file_name, "book.pdf");
    assert_eq!(map.len(), 2);
    assert_eq!(map[&1], "first page");
    assert_eq!(map[&2], "second page");
}

#[test]
fn parse_file_keeps_page_numbers_in_sixteen_bits() {
    let mut parser = PDFParser::new();
    let pages = vec![page(3, "early"), page(65536 + 3, "late")];
    let map = parser.parse_file("wrap.pdf", &pages);
    assert_eq!(map.len(), 1);
    assert_eq!(map[&3], "late");
}

#[test]
fn parse_file_without_pages_gives_empty_map() {
    let mut parser = PDFParser::new();
    let map = parser.parse_file("empty.pdf", &Vec::new());
    assert!(map.is_empty());
    assert_eq!(parser.chunk_location.file_name, "empty.pdf");
}

#[test]
fn paragraph_keys_round_trip() {
    assert_eq!(paragraph_key(0, 0), 0);
    assert_eq!(paragraph_key(3, 1), 196609);
    assert_eq!(paragraph_key(65535, 65535), u32::MAX);
    assert_eq!(split_paragraph_key(196609), (3, 1));
    assert_eq!(split_paragraph_key(paragraph_key(12, 34)), (12, 34));
}

#[test]
fn add_page_chunks_stores_each_chunk_under_its_paragraph() {
    let mut parser = PDFParser::new();
    let chunks = vec!["x".to_string(), "y".to_string()];
    let mut paragraphs = HashMap::new();
    parser.add_page_chunks(3, &chunks, &mut paragraphs);
    assert_eq!(paragraphs.len(), 2);
    assert_eq!(paragraphs[&paragraph_key(3, 0)].chunk_content, "x");
    assert_eq!(paragraphs[&paragraph_key(3, 1)].chunk_content, "y");
    assert_eq!(paragraphs[&paragraph_key(3, 1)].location.paragraph_number, 1);
    assert_eq!(paragraphs[&paragraph_key(3, 1)].location.page_number, 0);
    assert_eq!(parser.chunk_location.page_number, 3);
    assert_eq!(parser.data_chunk.chunk_content, "y");
    assert_eq!(parser.data_chunk.location.paragraph_number, 1);
}

#[test]
fn add_page_chunks_without_chunks_changes_only_the_page() {
    let mut parser = PDFParser::new();
    let mut paragraphs = HashMap::new();
    parser.add_page_chunks(7, &Vec::new(), &mut paragraphs);
    assert!(paragraphs.is_empty());
    assert_eq!(parser.chunk_location.page_number, 7);
    assert_eq!(parser.data_chunk.chunk_content, "");
}

#[test]
fn short_pages_become_one_paragraph_each() {
    let mut parser = PDFParser::new();
    let mut pages = HashMap::new();
    pages.insert(1u16, "Hello world".to_string());
    pages.insert(2u16, "Another page".to_string());
    let paragraphs = parser.parse_pages_into_paragraphs(&pages);
    assert_eq!(paragraphs.len(), 2);
    assert_eq!(paragraphs[&paragraph_key(1, 0)].chunk_content, "Hello world");
    assert_eq!(paragraphs[&paragraph_key(2, 0)].chunk_content, "Another page");
    assert!(pages.contains_key(&parser.chunk_location.page_number));
}

#[test]
fn long_page_is_split_into_bounded_chunks() {
    let mut parser = PDFParser::new();
    let text = "word ".repeat(300);
    let mut pages = HashMap::new();
    pages.insert(4u16, text.clone());
    let paragraphs = parser.parse_pages_into_paragraphs(&pages);
    assert!(paragraphs.len() >= 3);
    let mut joined = String::new();
    for n in 0..paragraphs.len() {
        let chunk = &paragraphs[&paragraph_key(4, n as u16)];
        assert!(chunk.chunk_content.chars().count() <= MAX_CHARACTERS);
        assert_eq!(chunk.location.paragraph_number, n as u16);
        joined.push_str(&chunk.chunk_content);
    }
    assert_eq!(joined.replace(' ', ""), text.replace(' ', ""));
}

#[test]
fn empty_page_gives_no_paragraph() {
    let mut parser = PDFParser::new();
    let mut pages = HashMap::new();
    pages.insert(9u16, String::new());
    let paragraphs = parser.parse_pages_into_paragraphs(&pages);
    assert!(paragraphs.is_empty());
    assert_eq!(parser.chunk_location.page_number, 9);
}

#[test]
fn chunks_lie_in_the_page_in_order() {
    let mut parser = PDFParser::new();
    let text: String = (0..200).map(|n| format!("sentence number {}. ", n)).collect();
    let mut pages = HashMap::new();
    pages.insert(2u16, text.clone());
    let paragraphs = parser.parse_pages_into_paragraphs(&pages);
    assert!(paragraphs.len() >= 2);
    let mut position = 0;
    for n in 0..paragraphs.len() {
        let content = &paragraphs[&paragraph_key(2, n as u16)].chunk_content;
        assert!(!content.is_empty());
        let found = text[position..].find(content.as_str()).expect("chunk lies in the page");
        position += found + content.len();
    }
}
