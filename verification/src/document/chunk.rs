//! Splitting a document into overlapping chunks of characters.
use vstd::prelude::*;

use crate::document::document::Document;
use crate::error::{Result, TinyError};
use crate::text::{chars_of, decimal, push_decimal, push_str, string_of};

verus! {

/// Chunk length and overlap, in characters.
#[derive(Debug, Clone, Copy, PartialEq, Eq, Structural)]
pub struct ChunkConfig {
    pub chunk_size: usize,
    pub overlap: usize,
}

impl ChunkConfig {
    /// Whether chunks are non-empty and advance: `0 < overlap + 1 <= chunk_size`.
    pub open spec fn valid(&self) -> bool {
        self.chunk_size > 0 && self.overlap < self.chunk_size
    }

    /// A checked configuration.
    pub fn new(chunk_size: usize, overlap: usize) -> (r: Result<Self>)
        ensures
            r is Ok <==> (ChunkConfig { chunk_size, overlap }).valid(),
            r matches Ok(c) ==> c == (ChunkConfig { chunk_size, overlap }),
            r matches Err(e) ==> e matches TinyError::InvalidArgument(m) && m@ == config_error_text(
                ChunkConfig { chunk_size, overlap },
            ),
    {
        let config = ChunkConfig { chunk_size, overlap };
        match config.validate() {
            Ok(()) => Ok(config),
            Err(e) => Err(e),
        }
    }

    /// Checks that chunks are non-empty and that the overlap is smaller than a chunk.
    pub fn validate(&self) -> (r: Result<()>)
        ensures
            r is Ok <==> self.valid(),
            r matches Err(e) ==> e matches TinyError::InvalidArgument(m) && m@ == config_error_text(*self),
    {
        if self.chunk_size == 0 {
            return Err(TinyError::InvalidArgument("document chunk_size must be greater than zero".to_string()));
        }
        if self.overlap >= self.chunk_size {
            let mut m = "document overlap must be smaller than chunk_size: overlap=".to_string();
            push_decimal(&mut m, self.overlap);
            push_str(&mut m, ", chunk_size=");
            push_decimal(&mut m, self.chunk_size);
            return Err(TinyError::InvalidArgument(m));
        }
        Ok(())
    }
}

/// The message refusing the chunk configuration `config`.
pub open spec fn config_error_text(config: ChunkConfig) -> Seq<char> {
    if config.chunk_size == 0 {
        "document chunk_size must be greater than zero"@
    } else {
        "document overlap must be smaller than chunk_size: overlap="@ + decimal(config.overlap as nat)
            + ", chunk_size="@ + decimal(config.chunk_size as nat)
    }
}

impl Default for ChunkConfig {
    /// Chunks of 512 characters overlapping by 64.
    fn default() -> (c: Self)
        ensures
            c == (ChunkConfig { chunk_size: 512, overlap: 64 }),
    {
        ChunkConfig { chunk_size: 512, overlap: 64 }
    }
}

/// One chunk of a document: its position in the chunk list, the document's
/// source, the character range it covers and that range's text.
#[derive(Debug, PartialEq, Eq)]
pub struct DocumentChunk {
    index: usize,
    source: String,
    start_char: usize,
    end_char: usize,
    text: String,
}

/// The mathematical contents of a [`DocumentChunk`].
pub struct ChunkView {
    pub index: int,
    pub source: Seq<char>,
    pub start_char: int,
    pub end_char: int,
    pub text: Seq<char>,
}

impl View for DocumentChunk {
    type V = ChunkView;

    closed spec fn view(&self) -> ChunkView {
        ChunkView {
            index: self.index as int,
            source: self.source@,
            start_char: self.start_char as int,
            end_char: self.end_char as int,
            text: self.text@,
        }
    }
}

impl DocumentChunk {
    #[verifier::type_invariant]
    spec fn range_ordered(self) -> bool {
        self.start_char <= self.end_char
    }

    pub(crate) fn new(index: usize, source: &str, start_char: usize, end_char: usize, text: String) -> (c: Self)
        requires
            start_char <= end_char,
        ensures
            c@ == (ChunkView {
                index: index as int,
                source: source@,
                start_char: start_char as int,
                end_char: end_char as int,
                text: text@,
            }),
    {
        DocumentChunk { index, source: source.to_string(), start_char, end_char, text }
    }

    /// Position in the chunk list.
    pub fn index(&self) -> (n: usize)
        ensures
            n == self@.index,
    {
        self.index
    }

    /// The source of the chunked document.
    pub fn source(&self) -> (s: &str)
        ensures
            s@ == self@.source,
    {
        self.source.as_str()
    }

    /// The first character index covered.
    pub fn start_char(&self) -> (n: usize)
        ensures
            n == self@.start_char,
    {
        self.start_char
    }

    /// The character index after the last one covered.
    pub fn end_char(&self) -> (n: usize)
        ensures
            n == self@.end_char,
    {
        self.end_char
    }

    /// The chunk's text.
    pub fn text(&self) -> (s: &str)
        ensures
            s@ == self@.text,
    {
        self.text.as_str()
    }

    /// Number of characters covered.
    pub fn len(&self) -> (n: usize)
        ensures
            n == self@.end_char - self@.start_char,
    {
        proof {
            use_type_invariant(self);
        }
        self.end_char - self.start_char
    }

    /// Whether the chunk's text is empty.
    pub fn is_empty(&self) -> (b: bool)
        ensures
            b == (self@.text.len() == 0),
    {
        self.text.as_str().is_empty()
    }
}

/// The first character of chunk `i`.
pub open spec fn chunk_start(config: ChunkConfig, i: int) -> int {
    i * (config.chunk_size - config.overlap)
}

/// The character after the last of chunk `i` of a text of `count` characters.
pub open spec fn chunk_end(config: ChunkConfig, count: int, i: int) -> int {
    if chunk_start(config, i) + config.chunk_size < count {
        chunk_start(config, i) + config.chunk_size
    } else {
        count
    }
}

/// Whether `chunks` is the chunk list of `document`: chunk `i` covers
/// characters `[i * step, min(i * step + chunk_size, count))` with
/// `step = chunk_size - overlap`, the last chunk reaches the end of the
/// text, and no earlier chunk does.
pub open spec fn chunks_of(document: Document, config: ChunkConfig, chunks: Seq<ChunkView>) -> bool {
    let text = document.spec_text();
    let count = text.len() as int;
    &&& count > 0
    &&& chunks.len() > 0
    &&& forall|i: int| 0 <= i < chunks.len() ==> {
        &&& (#[trigger] chunks[i]).index == i
        &&& chunks[i].source == document.spec_source()
        &&& chunks[i].start_char == chunk_start(config, i)
        &&& chunks[i].end_char == chunk_end(config, count, i)
        &&& chunks[i].text == text.subrange(chunks[i].start_char, chunks[i].end_char)
    }
    &&& chunks.last().end_char == count
    &&& forall|i: int| 0 <= i < chunks.len() - 1 ==> #[trigger] chunks[i].end_char < count
}

/// Splits the document's characters into chunks of `chunk_size` that start
/// every `chunk_size - overlap` characters, stopping at the first chunk
/// that reaches the end. An invalid configuration or an empty document is
/// refused.
pub fn chunk_document(document: &Document, config: &ChunkConfig) -> (r: Result<Vec<DocumentChunk>>)
    ensures
        r is Ok <==> config.valid() && document.spec_text().len() > 0,
        r matches Ok(chunks) ==> chunks_of(*document, *config, chunks@.map_values(|c: DocumentChunk| c@)),
        r matches Err(e) ==> e matches TinyError::InvalidArgument(m) && m@ == if config.valid() {
            "cannot chunk an empty document"@
        } else {
            config_error_text(*config)
        },
{
    match config.validate() {
        Ok(()) => {},
        Err(e) => {
            return Err(e);
        },
    }
    if document.is_empty() {
        return Err(TinyError::InvalidArgument("cannot chunk an empty document".to_string()));
    }
    let chars = chars_of(document.text());
    let count = chars.len();
    let size = config.chunk_size;
    let step = config.chunk_size - config.overlap;
    let source = document.source();
    let ghost text = document.spec_text();
    let mut chunks: Vec<DocumentChunk> = Vec::new();
    let mut start: usize = 0;
    let mut index: usize = 0;
    loop
        invariant_except_break
            chunks@.len() == index,
            start == chunk_start(*config, index as int),
            start < count,
            index <= start,
            forall|i: int| 0 <= i < index ==> {
                &&& (#[trigger] chunks@[i])@.index == i
                &&& chunks@[i]@.source == document.spec_source()
                &&& chunks@[i]@.start_char == chunk_start(*config, i)
                &&& chunks@[i]@.end_char == chunk_end(*config, count as int, i)
                &&& chunks@[i]@.text == text.subrange(chunks@[i]@.start_char, chunks@[i]@.end_char)
                &&& chunks@[i]@.end_char < count
            },
        invariant
            chars@ == text,
            text == document.spec_text(),
            count == text.len(),
            count > 0,
            size == config.chunk_size,
            step == config.chunk_size - config.overlap,
            config.valid(),
            source@ == document.spec_source(),
        ensures
            chunks_of(*document, *config, chunks@.map_values(|c: DocumentChunk| c@)),
        decreases count - start,
    {
        let reach = start.saturating_add(size);
        let end = if reach < count { reach } else { count };
        let piece = string_of(&chars, start, end);
        chunks.push(DocumentChunk::new(index, source, start, end, piece));
        if end == count {
            let ghost views = chunks@.map_values(|c: DocumentChunk| c@);
            assert forall|i: int| 0 <= i < views.len() implies {
                &&& (#[trigger] views[i]).index == i
                &&& views[i].source == document.spec_source()
                &&& views[i].start_char == chunk_start(*config, i)
                &&& views[i].end_char == chunk_end(*config, count as int, i)
                &&& views[i].text == text.subrange(views[i].start_char, views[i].end_char)
            } by {
                assert(views[i] == chunks@[i]@);
            }
            assert forall|i: int| 0 <= i < views.len() - 1 implies #[trigger] views[i].end_char < count by {
                assert(views[i] == chunks@[i]@);
            }
            break;
        }
        assert(chunk_start(*config, index + 1) == start + step) by (nonlinear_arith)
            requires
                start == chunk_start(*config, index as int),
                step == config.chunk_size - config.overlap,
        ;
        start = start + step;
        index = index + 1;
    }
    Ok(chunks)
}


/// Whether some chunk covers character `p`.
pub open spec fn covered(chunks: Seq<ChunkView>, p: int) -> bool {
    exists|i: int| 0 <= i < chunks.len() && #[trigger] chunks[i].start_char <= p < chunks[i].end_char
}

proof fn lemma_next_start(config: ChunkConfig, i: int)
    ensures
        chunk_start(config, i + 1) == chunk_start(config, i) + (config.chunk_size - config.overlap),
{
    let step = config.chunk_size - config.overlap;
    assert((i + 1) * step == i * step + step) by (nonlinear_arith);
}

proof fn lemma_cover_from(document: Document, config: ChunkConfig, chunks: Seq<ChunkView>, p: int, k: int)
    requires
        config.valid(),
        chunks_of(document, config, chunks),
        0 <= k < chunks.len(),
        chunks[k].start_char <= p < document.spec_text().len(),
    ensures
        exists|i: int| 0 <= i < chunks.len() && #[trigger] chunks[i].start_char <= p < chunks[i].end_char,
    decreases chunks.len() - k,
{
    if p < chunks[k].end_char {
        assert(chunks[k].start_char <= p < chunks[k].end_char);
    } else {
        if k == chunks.len() - 1 {
            assert(chunks[k].end_char == document.spec_text().len());
        } else {
            lemma_next_start(config, k);
            assert(chunks[k + 1].start_char == chunks[k].start_char + (config.chunk_size - config.overlap));
            lemma_cover_from(document, config, chunks, p, k + 1);
        }
    }
}

/// The chunk list covers the document: every character lies in some chunk,
/// every chunk but the last holds exactly `chunk_size` characters and
/// shares its last `overlap` characters with the next one, and the last
/// holds at most `chunk_size`.
pub proof fn lemma_chunks_cover(document: Document, config: ChunkConfig, chunks: Seq<ChunkView>)
    requires
        config.valid(),
        chunks_of(document, config, chunks),
    ensures
        forall|p: int| 0 <= p < document.spec_text().len() ==> #[trigger] covered(chunks, p),
        forall|i: int| 0 <= i < chunks.len() - 1 ==> #[trigger] chunks[i].end_char - chunks[i].start_char
            == config.chunk_size,
        forall|i: int| 0 <= i < chunks.len() - 1 ==> #[trigger] chunks[i].end_char - chunks[i + 1].start_char
            == config.overlap,
        0 < chunks.last().end_char - chunks.last().start_char <= config.chunk_size,
{
    assert forall|p: int| 0 <= p < document.spec_text().len() implies #[trigger] covered(chunks, p) by {
        assert(chunks[0].start_char == 0) by {
            assert(chunk_start(config, 0) == 0 * (config.chunk_size - config.overlap));
        }
        lemma_cover_from(document, config, chunks, p, 0);
    }
    assert forall|i: int| 0 <= i < chunks.len() - 1 implies #[trigger] chunks[i].end_char - chunks[i + 1].start_char
        == config.overlap by {
        lemma_next_start(config, i);
        assert(chunks[i + 1].start_char == chunk_start(config, i + 1));
    }
    let n = chunks.len() - 1;
    assert(chunks[n].end_char == document.spec_text().len());
    assert(chunks[n].end_char == chunk_end(config, document.spec_text().len() as int, n));
    if n > 0 {
        lemma_next_start(config, n - 1);
        assert(chunks[n - 1].end_char < document.spec_text().len());
        assert(chunks[n - 1].end_char == chunk_end(config, document.spec_text().len() as int, n - 1));
        assert(chunks[n].start_char == chunk_start(config, n));
    } else {
        assert(chunk_start(config, 0) == 0 * (config.chunk_size - config.overlap));
    }
}

} // verus!
