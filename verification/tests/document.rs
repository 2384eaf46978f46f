use tiny_metal_llm::document::loader::check_extension;
use tiny_metal_llm::document::{chunk_document, document_from_text, validate_extension, ChunkConfig, Document};
use tiny_metal_llm::error::TinyError;

#[test]
fn creates_document() {
    let document = Document::new("notes.md", "# Rust\nOwnership is important.");

    assert_eq!(Some(document.source()), Some("notes.md"));

    assert_eq!(document.text(), "# Rust\nOwnership is important.");

    assert!(!document.is_empty());
}

#[test]
fn document_length_counts_bytes() {
    assert_eq!(Document::new("a.txt", "가나다").len(), 9);
    assert!(Document::new("a.txt", "").is_empty());
}

#[test]
fn chunk_config_validation() {
    assert_eq!(ChunkConfig::default(), ChunkConfig { chunk_size: 512, overlap: 64 });
    assert!(matches!(ChunkConfig::new(0, 0), Err(TinyError::InvalidArgument(_))));
    assert!(matches!(ChunkConfig::new(4, 4), Err(TinyError::InvalidArgument(_))));
    assert_eq!(ChunkConfig::new(4, 3).unwrap(), ChunkConfig { chunk_size: 4, overlap: 3 });
    assert!(ChunkConfig { chunk_size: 2, overlap: 5 }.validate().is_err());
}

#[test]
fn chunks_overlap_and_cover_the_text() {
    let document = Document::new("doc.txt", "abcdefghij");
    let config = ChunkConfig::new(4, 1).unwrap();
    let chunks = chunk_document(&document, &config).unwrap();
    let ranges: Vec<(usize, usize, &str)> =
        chunks.iter().map(|c| (c.start_char(), c.end_char(), c.text())).collect();
    assert_eq!(ranges, vec![(0, 4, "abcd"), (3, 7, "defg"), (6, 10, "ghij")]);
    for (i, chunk) in chunks.iter().enumerate() {
        assert_eq!(chunk.index(), i);
        assert_eq!(chunk.source(), "doc.txt");
        assert_eq!(chunk.len(), 4);
        assert!(!chunk.is_empty());
    }
}

#[test]
fn chunks_count_characters_not_bytes() {
    let document = Document::new("k.md", "가나다라마");
    let chunks = chunk_document(&document, &ChunkConfig::new(2, 0).unwrap()).unwrap();
    let texts: Vec<&str> = chunks.iter().map(|c| c.text()).collect();
    assert_eq!(texts, vec!["가나", "다라", "마"]);
    assert_eq!(chunks[2].len(), 1);
}

#[test]
fn short_document_is_one_chunk() {
    let document = Document::new("s.txt", "hi");
    let chunks = chunk_document(&document, &ChunkConfig::default()).unwrap();
    assert_eq!(chunks.len(), 1);
    assert_eq!(chunks[0].text(), "hi");
    assert_eq!((chunks[0].start_char(), chunks[0].end_char()), (0, 2));
}

#[test]
fn huge_chunk_size_does_not_overflow() {
    let document = Document::new("s.txt", "hello");
    let chunks = chunk_document(&document, &ChunkConfig { chunk_size: usize::MAX, overlap: 0 }).unwrap();
    assert_eq!(chunks.len(), 1);
    assert_eq!(chunks[0].text(), "hello");
}

#[test]
fn chunking_rejects_empty_document_and_bad_config() {
    assert!(matches!(
        chunk_document(&Document::new("e.txt", ""), &ChunkConfig::default()),
        Err(TinyError::InvalidArgument(_))
    ));
    assert!(matches!(
        chunk_document(&Document::new("e.txt", "x"), &ChunkConfig { chunk_size: 3, overlap: 3 }),
        Err(TinyError::InvalidArgument(_))
    ));
}

#[test]
fn accepts_text_and_markdown_extensions() {
    assert!(validate_extension("notes/a.txt").is_ok());
    assert!(validate_extension("README.MD").is_ok());
    assert!(validate_extension("b.Txt").is_ok());
    assert!(matches!(validate_extension("paper.pdf"), Err(TinyError::InvalidArgument(_))));
    assert!(matches!(validate_extension("Makefile"), Err(TinyError::InvalidArgument(_))));
    assert!(matches!(validate_extension(".md"), Err(TinyError::InvalidArgument(_))));
    assert!(check_extension(Some("md")).is_ok());
    assert!(check_extension(None).is_err());
    assert!(check_extension(Some("mdx")).is_err());
}

#[test]
fn loaded_text_must_not_be_blank() {
    assert!(matches!(document_from_text("a.txt", "   \n"), Err(TinyError::InvalidArgument(_))));
    let document = document_from_text("a.txt", "Rust uses ownership.").unwrap();
    assert_eq!(document.text(), "Rust uses ownership.");
    assert_eq!(document.source(), "a.txt");
}

#[test]
fn loads_text_document() {
    let path = "rustllm-document-1.txt";
    assert!(validate_extension(path).is_ok());
    let document = document_from_text(path, "Rust uses ownership.").unwrap();
    assert_eq!(document.text(), "Rust uses ownership.");
    assert_eq!(document.source(), path);
}

#[test]
fn loads_markdown_document() {
    let path = "rustllm-document-2.md";
    assert!(validate_extension(path).is_ok());
    let document = document_from_text(path, "# Rust\n\nOwnership").unwrap();
    assert!(document.text().contains("Ownership"));
}

#[test]
fn rejects_unsupported_format() {
    let path = "rustllm-document-3.pdf";
    assert!(validate_extension(path).is_err());
}

#[test]
fn rejects_empty_document() {
    let path = "rustllm-document-4.txt";
    assert!(validate_extension(path).is_ok());
    assert!(document_from_text(path, "   \n").is_err());
}

#[test]
fn empty_means_no_characters_and_no_bytes() {
    let blank = Document::new("a.txt", "   \n");
    assert!(!blank.is_empty());
    assert_eq!(blank.len(), 4);
    let empty = Document::new("a.txt", "");
    assert!(empty.is_empty());
    assert_eq!(empty.len(), 0);
    assert_eq!(Document::new("a.txt", "é").len(), 2);
}

#[test]
fn chunk_overlap_error_names_both_sizes() {
    assert!(matches!(
        ChunkConfig::new(4, 4),
        Err(TinyError::InvalidArgument(m)) if m == "document overlap must be smaller than chunk_size: overlap=4, chunk_size=4"
    ));
    assert!(matches!(
        ChunkConfig::new(0, 0),
        Err(TinyError::InvalidArgument(m)) if m == "document chunk_size must be greater than zero"
    ));
}
