use std::collections::HashMap;
use vstd::prelude::*;
use vstd::std_specs::iter::IteratorSpec;

verus! {

broadcast use vstd::std_specs::hash::group_hash_axioms;

/// The most characters that one chunk of a page may hold.
pub const MAX_CHARACTERS: usize = 500;

/// The chunks, in order, that `text_splitter::TextSplitter::new(capacity).chunks(text)`
/// yields: a character-counting splitter with room for `capacity` characters per chunk.
pub uninterp spec fn text_splitter_chunks(capacity: usize, text: Seq<char>) -> Seq<Seq<char>>;

/// The chunks lie in `text` one after another without overlapping: chunk `i` is the
/// slice of `text` that starts at `offsets[i]`.
pub open spec fn laid_out_in(chunks: Seq<Seq<char>>, text: Seq<char>, offsets: Seq<int>) -> bool {
    &&& offsets.len() == chunks.len()
    &&& forall|i: int|
        0 <= i < chunks.len() ==> {
            &&& 0 <= #[trigger] offsets[i]
            &&& offsets[i] + chunks[i].len() <= text.len()
            &&& text.subrange(offsets[i], offsets[i] + chunks[i].len()) == chunks[i]
        }
    &&& forall|i: int, j: int|
        #![trigger offsets[i], offsets[j]]
        0 <= i < j < chunks.len() ==> offsets[i] + chunks[i].len() <= offsets[j]
}

/// What the splitter gives of `text`: no chunk is empty, none holds more than
/// `capacity` characters, and they lie in `text` in order without overlapping.
pub open spec fn chunks_fit_text(chunks: Seq<Seq<char>>, text: Seq<char>, capacity: nat) -> bool {
    &&& forall|i: int| 0 <= i < chunks.len() ==> 0 < #[trigger] chunks[i].len() <= capacity
    &&& exists|offsets: Seq<int>| #[trigger] laid_out_in(chunks, text, offsets)
}

/// Splits `text` with `text_splitter::TextSplitter` (characters counted, `capacity`
/// per chunk) and collects the chunks as owned strings.
/// Trusted: the strings returned are, in order, `text_splitter_chunks(capacity, text@)`;
/// that name stands for the splitter's result, which is a function of the two arguments.
/// Trusted too (`chunks_fit_text`): no chunk holds more than `capacity` characters, as
/// the documentation promises and the fallback to single characters ensures; empty
/// chunks are skipped; each chunk is a trimmed slice of `text` taken at the cursor,
/// which only moves forward past the previous chunk, as the splitter has no overlap.
#[verifier::external_body]
fn split_into_chunks(capacity: usize, text: &str) -> (chunks: Vec<String>)
    requires
        capacity > 0,
    ensures
        chunks@.map_values(|c: String| c@) == text_splitter_chunks(capacity, text@),
        chunks_fit_text(chunks@.map_values(|c: String| c@), text@, capacity as nat),
{
    text_splitter::TextSplitter::new(capacity).chunks(text).map(String::from).collect()
}

/// The key under which paragraph `paragraph` of page `page` is stored: the page in
/// the upper sixteen bits, the paragraph in the lower sixteen.
pub open spec fn paragraph_key_of(page: u16, paragraph: u16) -> u32 {
    (page as int * 65536 + paragraph as int) as u32
}

/// The page that a paragraph key names.
pub open spec fn page_of_key(key: u32) -> u16 {
    (key / 65536) as u16
}

/// The paragraph that a paragraph key names.
pub open spec fn paragraph_of_key(key: u32) -> u16 {
    (key % 65536) as u16
}

/// The key under which paragraph `paragraph` of page `page` is stored.
pub fn paragraph_key(page: u16, paragraph: u16) -> (key: u32)
    ensures
        key == paragraph_key_of(page, paragraph),
{
    (page as u32) * 65536 + (paragraph as u32)
}

/// The page and the paragraph that a key names.
pub fn split_paragraph_key(key: u32) -> (parts: (u16, u16))
    ensures
        parts.0 == page_of_key(key),
        parts.1 == paragraph_of_key(key),
{
    ((key / 65536) as u16, (key % 65536) as u16)
}

/// A paragraph key names its page and paragraph, and every key names exactly one pair.
pub proof fn law_paragraph_key_round_trip(page: u16, paragraph: u16, key: u32)
    ensures
        page_of_key(paragraph_key_of(page, paragraph)) == page,
        paragraph_of_key(paragraph_key_of(page, paragraph)) == paragraph,
        paragraph_key_of(page_of_key(key), paragraph_of_key(key)) == key,
{
}

/// Where a chunk of text came from: the file, the page and the paragraph on that page.
#[derive(Debug, Clone)]
pub struct ChunkLocation {
    pub file_name: String,
    pub page_number: u16,
    pub paragraph_number: u16,
}

/// The value of a `ChunkLocation`.
pub struct ChunkLocationView {
    pub file_name: Seq<char>,
    pub page_number: u16,
    pub paragraph_number: u16,
}

impl View for ChunkLocation {
    type V = ChunkLocationView;

    open spec fn view(&self) -> ChunkLocationView {
        ChunkLocationView {
            file_name: self.file_name@,
            page_number: self.page_number,
            paragraph_number: self.paragraph_number,
        }
    }
}

impl ChunkLocation {
    /// The location with an empty file name, page 0 and paragraph 0.
    pub fn new() -> (location: Self)
        ensures
            location.file_name@ == Seq::<char>::empty(),
            location.page_number == 0,
            location.paragraph_number == 0,
    {
        ChunkLocation { file_name: String::new(), page_number: 0, paragraph_number: 0 }
    }
}

/// A piece of text together with its location.
#[derive(Debug, Clone)]
pub struct DataChunk {
    pub chunk_content: String,
    pub location: ChunkLocation,
}

/// The value of a `DataChunk`.
pub struct DataChunkView {
    pub chunk_content: Seq<char>,
    pub location: ChunkLocationView,
}

impl View for DataChunk {
    type V = DataChunkView;

    open spec fn view(&self) -> DataChunkView {
        DataChunkView { chunk_content: self.chunk_content@, location: self.location@ }
    }
}

impl DataChunk {
    fn copy_chunk(&self) -> (copy: DataChunk)
        ensures
            copy@ == self@,
    {
        DataChunk {
            chunk_content: self.chunk_content.clone(),
            location: ChunkLocation {
                file_name: self.location.file_name.clone(),
                page_number: self.location.page_number,
                paragraph_number: self.location.paragraph_number,
            },
        }
    }

    /// The chunk with empty content at the location `ChunkLocation::new()` gives.
    pub fn new() -> (chunk: Self)
        ensures
            chunk.chunk_content@ == Seq::<char>::empty(),
            chunk.location.file_name@ == Seq::<char>::empty(),
            chunk.location.page_number == 0,
            chunk.location.paragraph_number == 0,
    {
        DataChunk { chunk_content: String::new(), location: ChunkLocation::new() }
    }
}

/// The text of one page of a PDF file, with the page's number.
pub struct PageText {
    pub page_number: usize,
    pub text: String,
}

/// The pages as plain values: each page's number and text.
pub open spec fn page_values(pages: Seq<PageText>) -> Seq<(usize, Seq<char>)> {
    pages.map_values(|p: PageText| (p.page_number, p.text@))
}

/// The map from page number (kept in sixteen bits) to page text that results from
/// entering the pages in order: a later page replaces an earlier one of the same key.
pub open spec fn page_text_map(pages: Seq<(usize, Seq<char>)>) -> Map<u16, Seq<char>>
    decreases pages.len(),
{
    if pages.len() == 0 {
        Map::empty()
    } else {
        page_text_map(pages.drop_last()).insert(pages.last().0 as u16, pages.last().1)
    }
}

/// The chunks stored for one page whose text split into `chunks`: chunk `n` goes under
/// the key of paragraph `n` (kept in sixteen bits, a later chunk replacing an earlier
/// one of the same key), located in file `file_name` on page `location_page` with
/// paragraph number `n`.
pub open spec fn page_paragraphs(
    page: u16,
    chunks: Seq<Seq<char>>,
    file_name: Seq<char>,
    location_page: u16,
) -> Map<u32, DataChunkView>
    decreases chunks.len(),
{
    if chunks.len() == 0 {
        Map::empty()
    } else {
        let n = chunks.len() - 1;
        page_paragraphs(page, chunks.drop_last(), file_name, location_page).insert(
            paragraph_key_of(page, n as u16),
            DataChunkView {
                chunk_content: chunks[n],
                location: ChunkLocationView { file_name, page_number: location_page, paragraph_number: n as u16 },
            },
        )
    }
}

/// The chunks of page `page` of `pages`, split `MAX_CHARACTERS` to a chunk.
pub open spec fn chunks_of_page(
    pages: Map<u16, Seq<char>>,
    page: u16,
    file_name: Seq<char>,
    location_page: u16,
) -> Map<u32, DataChunkView> {
    page_paragraphs(page, text_splitter_chunks(MAX_CHARACTERS, pages[page]), file_name, location_page)
}

/// The chunks of the pages in `done`: each key belongs to the page it names.
pub open spec fn paragraphs_of_pages(
    pages: Map<u16, Seq<char>>,
    done: Set<u16>,
    file_name: Seq<char>,
    location_page: u16,
) -> Map<u32, DataChunkView> {
    Map::new(
        |k: u32|
            done.contains(page_of_key(k)) && pages.contains_key(page_of_key(k)) && chunks_of_page(
                pages,
                page_of_key(k),
                file_name,
                location_page,
            ).contains_key(k),
        |k: u32| chunks_of_page(pages, page_of_key(k), file_name, location_page)[k],
    )
}

/// The chunks of every page of `pages`.
pub open spec fn all_paragraphs(
    pages: Map<u16, Seq<char>>,
    file_name: Seq<char>,
    location_page: u16,
) -> Map<u32, DataChunkView> {
    paragraphs_of_pages(pages, pages.dom(), file_name, location_page)
}

/// Every key of a page's chunks names that page.
pub proof fn lemma_page_paragraph_keys(
    page: u16,
    chunks: Seq<Seq<char>>,
    file_name: Seq<char>,
    location_page: u16,
)
    ensures
        forall|k: u32| #[trigger]
            page_paragraphs(page, chunks, file_name, location_page).contains_key(k) ==> page_of_key(k) == page,
    decreases chunks.len(),
{
    if chunks.len() > 0 {
        lemma_page_paragraph_keys(page, chunks.drop_last(), file_name, location_page);
        let n = chunks.len() - 1;
        law_paragraph_key_round_trip(page, n as u16, 0);
        let inner = page_paragraphs(page, chunks.drop_last(), file_name, location_page);
        let key = paragraph_key_of(page, n as u16);
        assert forall|k: u32| #[trigger]
            page_paragraphs(page, chunks, file_name, location_page).contains_key(k) implies page_of_key(k) == page by {
            assert(page_paragraphs(page, chunks, file_name, location_page).dom() == inner.dom().insert(key));
            if k != key {
                assert(inner.contains_key(k));
            }
        }
    }
}

/// The keys of the map of page texts are the pages' numbers kept in sixteen bits.
pub proof fn law_page_text_keys(pages: Seq<(usize, Seq<char>)>)
    ensures
        forall|k: u16| #[trigger]
            page_text_map(pages).contains_key(k) <==> exists|j: int|
                0 <= j < pages.len() && pages[j].0 as u16 == k,
    decreases pages.len(),
{
    if pages.len() > 0 {
        let rest = pages.drop_last();
        law_page_text_keys(rest);
        assert forall|k: u16| #[trigger] page_text_map(pages).contains_key(k) implies exists|j: int|
            0 <= j < pages.len() && pages[j].0 as u16 == k by {
            if k == pages.last().0 as u16 {
                assert(pages[pages.len() - 1].0 as u16 == k);
            } else {
                assert(page_text_map(rest).contains_key(k));
                let j = choose|j: int| 0 <= j < rest.len() && rest[j].0 as u16 == k;
                assert(pages[j] == rest[j]);
            }
        }
        assert forall|k: u16| (exists|j: int| 0 <= j < pages.len() && pages[j].0 as u16 == k) implies
            #[trigger] page_text_map(pages).contains_key(k) by {
            let j = choose|j: int| 0 <= j < pages.len() && pages[j].0 as u16 == k;
            if j < rest.len() {
                assert(rest[j] == pages[j]);
            }
        }
    }
}

/// Under each page's number kept in sixteen bits stands the text of the last page
/// with that key.
pub proof fn law_page_text_lookup(pages: Seq<(usize, Seq<char>)>, i: int)
    requires
        0 <= i < pages.len(),
        forall|j: int| i < j < pages.len() ==> #[trigger] pages[j].0 as u16 != pages[i].0 as u16,
    ensures
        page_text_map(pages).contains_key(pages[i].0 as u16),
        page_text_map(pages)[pages[i].0 as u16] == pages[i].1,
    decreases pages.len(),
{
    let rest = pages.drop_last();
    if i < pages.len() - 1 {
        assert forall|j: int| i < j < rest.len() implies #[trigger] rest[j].0 as u16 != rest[i].0 as u16 by {
            assert(rest[j] == pages[j]);
            assert(rest[i] == pages[i]);
        }
        law_page_text_lookup(rest, i);
        assert(rest[i] == pages[i]);
        assert(pages[pages.len() - 1].0 as u16 != pages[i].0 as u16);
    }
}

/// Chunk `n` of a page of fewer than 65536 chunks is stored under the key of
/// paragraph `n`, with its own content, located on the template's file and page.
pub proof fn law_page_paragraph_lookup(
    page: u16,
    chunks: Seq<Seq<char>>,
    file_name: Seq<char>,
    location_page: u16,
    n: int,
)
    requires
        chunks.len() <= 65536,
        0 <= n < chunks.len(),
    ensures
        page_paragraphs(page, chunks, file_name, location_page).contains_key(
            paragraph_key_of(page, n as u16),
        ),
        page_paragraphs(page, chunks, file_name, location_page)[paragraph_key_of(page, n as u16)]
            == (DataChunkView {
            chunk_content: chunks[n],
            location: ChunkLocationView {
                file_name,
                page_number: location_page,
                paragraph_number: n as u16,
            },
        }),
    decreases chunks.len(),
{
    let last = chunks.len() - 1;
    if n < last {
        law_page_paragraph_lookup(page, chunks.drop_last(), file_name, location_page, n);
        law_paragraph_key_round_trip(page, n as u16, 0);
        law_paragraph_key_round_trip(page, last as u16, 0);
        assert(n as u16 != last as u16);
        assert(paragraph_key_of(page, n as u16) != paragraph_key_of(page, last as u16));
    }
}

/// Every page of the map is split and stored: for each page `page` and each chunk
/// `n` that the splitter gives for the page's text (a page of at most 65536 chunks),
/// the paragraphs hold the key of (`page`, `n`), with that chunk as content, located
/// on the template's file and page with paragraph number `n`. And every stored key
/// names a page of the map.
pub proof fn law_every_page_chunk_stored(
    pages: Map<u16, Seq<char>>,
    file_name: Seq<char>,
    location_page: u16,
    page: u16,
    n: int,
)
    requires
        pages.contains_key(page),
        0 <= n < text_splitter_chunks(MAX_CHARACTERS, pages[page]).len(),
        text_splitter_chunks(MAX_CHARACTERS, pages[page]).len() <= 65536,
    ensures
        all_paragraphs(pages, file_name, location_page).contains_key(
            (page as int * 65536 + n) as u32,
        ),
        all_paragraphs(pages, file_name, location_page)[(page as int * 65536 + n) as u32]
            == (DataChunkView {
            chunk_content: text_splitter_chunks(MAX_CHARACTERS, pages[page])[n],
            location: ChunkLocationView {
                file_name,
                page_number: location_page,
                paragraph_number: n as u16,
            },
        }),
        forall|k: u32| #[trigger]
            all_paragraphs(pages, file_name, location_page).contains_key(k) ==> pages.contains_key(
                (k / 65536) as u16,
            ),
{
    let chunks = text_splitter_chunks(MAX_CHARACTERS, pages[page]);
    law_page_paragraph_lookup(page, chunks, file_name, location_page, n);
    law_paragraph_key_round_trip(page, n as u16, 0);
    let key = paragraph_key_of(page, n as u16);
    assert(key == (page as int * 65536 + n) as u32);
    assert(page_of_key(key) == page);
    assert(chunks_of_page(pages, page, file_name, location_page) == page_paragraphs(
        page,
        chunks,
        file_name,
        location_page,
    ));
}

/// Every stored chunk carries the paragraph number of its key and the template's
/// file name and page number.
pub proof fn law_paragraph_locations(
    pages: Map<u16, Seq<char>>,
    file_name: Seq<char>,
    location_page: u16,
    key: u32,
)
    requires
        all_paragraphs(pages, file_name, location_page).contains_key(key),
    ensures
        all_paragraphs(pages, file_name, location_page)[key].location == (ChunkLocationView {
            file_name,
            page_number: location_page,
            paragraph_number: paragraph_of_key(key),
        }),
{
    let page = page_of_key(key);
    lemma_page_paragraph_locations(
        page,
        text_splitter_chunks(MAX_CHARACTERS, pages[page]),
        file_name,
        location_page,
    );
}

proof fn lemma_page_paragraph_locations(
    page: u16,
    chunks: Seq<Seq<char>>,
    file_name: Seq<char>,
    location_page: u16,
)
    ensures
        forall|k: u32| #[trigger]
            page_paragraphs(page, chunks, file_name, location_page).contains_key(k) ==> page_paragraphs(
                page,
                chunks,
                file_name,
                location_page,
            )[k].location == (ChunkLocationView {
                file_name,
                page_number: location_page,
                paragraph_number: paragraph_of_key(k),
            }),
    decreases chunks.len(),
{
    if chunks.len() > 0 {
        lemma_page_paragraph_locations(page, chunks.drop_last(), file_name, location_page);
        let n = chunks.len() - 1;
        law_paragraph_key_round_trip(page, n as u16, 0);
        let inner = page_paragraphs(page, chunks.drop_last(), file_name, location_page);
        let key = paragraph_key_of(page, n as u16);
        assert forall|k: u32| #[trigger]
            page_paragraphs(page, chunks, file_name, location_page).contains_key(k) implies page_paragraphs(
                page,
                chunks,
                file_name,
                location_page,
            )[k].location == (ChunkLocationView {
                file_name,
                page_number: location_page,
                paragraph_number: paragraph_of_key(k),
            }) by {
            if k != key {
                assert(inner.contains_key(k));
            }
        }
    }
}

/// A page whose chunks are all within `capacity` characters stores only chunks within
/// `capacity` characters.
pub proof fn lemma_page_paragraph_sizes(
    page: u16,
    chunks: Seq<Seq<char>>,
    file_name: Seq<char>,
    location_page: u16,
    capacity: nat,
)
    requires
        forall|i: int| 0 <= i < chunks.len() ==> #[trigger] chunks[i].len() <= capacity,
    ensures
        forall|k: u32| #[trigger]
            page_paragraphs(page, chunks, file_name, location_page).contains_key(k) ==> page_paragraphs(
                page,
                chunks,
                file_name,
                location_page,
            )[k].chunk_content.len() <= capacity,
    decreases chunks.len(),
{
    if chunks.len() > 0 {
        let rest = chunks.drop_last();
        assert forall|i: int| 0 <= i < rest.len() implies #[trigger] rest[i].len() <= capacity by {
            assert(rest[i] == chunks[i]);
        }
        lemma_page_paragraph_sizes(page, rest, file_name, location_page, capacity);
        let n = chunks.len() - 1;
        let inner = page_paragraphs(page, rest, file_name, location_page);
        let key = paragraph_key_of(page, n as u16);
        assert forall|k: u32| #[trigger]
            page_paragraphs(page, chunks, file_name, location_page).contains_key(k) implies page_paragraphs(
                page,
                chunks,
                file_name,
                location_page,
            )[k].chunk_content.len() <= capacity by {
            if k != key {
                assert(inner.contains_key(k));
            }
        }
    }
}

/// Adding the chunks of one more page to those of the pages done gives those of the
/// pages done and that page.
proof fn lemma_add_page(
    pages: Map<u16, Seq<char>>,
    done: Set<u16>,
    page: u16,
    file_name: Seq<char>,
    location_page: u16,
)
    requires
        pages.contains_key(page),
    ensures
        paragraphs_of_pages(pages, done, file_name, location_page).union_prefer_right(
            chunks_of_page(pages, page, file_name, location_page),
        ) == paragraphs_of_pages(pages, done.insert(page), file_name, location_page),
{
    let chunks = text_splitter_chunks(MAX_CHARACTERS, pages[page]);
    lemma_page_paragraph_keys(page, chunks, file_name, location_page);
    assert(paragraphs_of_pages(pages, done, file_name, location_page).union_prefer_right(
        chunks_of_page(pages, page, file_name, location_page),
    ) =~= paragraphs_of_pages(pages, done.insert(page), file_name, location_page));
}

/// Splits the pages of a PDF file into chunks, remembering where it stands.
pub struct PDFParser {
    pub data_chunk: DataChunk,
    pub chunk_location: ChunkLocation,
}

impl PDFParser {
    /// A parser whose current chunk and location are both empty.
    pub fn new() -> (parser: Self)
        ensures
            parser.data_chunk.chunk_content@ == Seq::<char>::empty(),
            parser.data_chunk.location.file_name@ == Seq::<char>::empty(),
            parser.data_chunk.location.page_number == 0,
            parser.data_chunk.location.paragraph_number == 0,
            parser.chunk_location.file_name@ == Seq::<char>::empty(),
            parser.chunk_location.page_number == 0,
            parser.chunk_location.paragraph_number == 0,
    {
        PDFParser { data_chunk: DataChunk::new(), chunk_location: ChunkLocation::new() }
    }

    /// Records `file_name` as the current file and maps each page's number, kept in
    /// sixteen bits, to its text; of two pages with one key the later is kept.
    pub fn parse_file(&mut self, file_name: &str, pages: &Vec<PageText>) -> (pages_map: HashMap<u16, String>)
        ensures
            final(self).chunk_location.file_name@ == file_name@,
            final(self).chunk_location.page_number == old(self).chunk_location.page_number,
            final(self).chunk_location.paragraph_number == old(self).chunk_location.paragraph_number,
            final(self).data_chunk@ == old(self).data_chunk@,
            pages_map@.map_values(|s: String| s@) == page_text_map(page_values(pages@)),
    {
        self.chunk_location.file_name = String::from_str(file_name);
        let mut pages_map: HashMap<u16, String> = HashMap::new();
        let mut i: usize = 0;
        while i < pages.len()
            invariant
                i <= pages.len(),
                pages_map@.map_values(|s: String| s@) == page_text_map(
                    page_values(pages@.subrange(0, i as int)),
                ),
            decreases pages.len() - i,
        {
            let page = &pages[i];
            let key = page.page_number as u16;
            let text = page.text.clone();
            pages_map.insert(key, text);
            proof {
                let done = page_values(pages@.subrange(0, i + 1));
                assert(done.drop_last() =~= page_values(pages@.subrange(0, i as int)));
                assert(done.last() == (page.page_number, page.text@));
            }
            i = i + 1;
            assert(pages_map@.map_values(|s: String| s@) =~= page_text_map(
                page_values(pages@.subrange(0, i as int)),
            ));
        }
        assert(pages@.subrange(0, pages.len() as int) =~= pages@);
        pages_map
    }

    /// Makes `page_number` the current page and stores the page's chunks: chunk `n`
    /// becomes the current chunk, with paragraph number `n` kept in sixteen bits, and a
    /// copy of it goes under `paragraph_key(page_number, n)`, replacing what was there.
    pub fn add_page_chunks(
        &mut self,
        page_number: u16,
        chunks: &Vec<String>,
        paragraphs: &mut HashMap<u32, DataChunk>,
    )
        ensures
            final(paragraphs)@.map_values(|c: DataChunk| c@) == old(paragraphs)@.map_values(
                |c: DataChunk| c@,
            ).union_prefer_right(
                page_paragraphs(
                    page_number,
                    chunks@.map_values(|c: String| c@),
                    old(self).data_chunk.location.file_name@,
                    old(self).data_chunk.location.page_number,
                ),
            ),
            final(self).chunk_location.page_number == page_number,
            final(self).chunk_location.file_name@ == old(self).chunk_location.file_name@,
            final(self).chunk_location.paragraph_number == old(self).chunk_location.paragraph_number,
            final(self).data_chunk.location.file_name@ == old(self).data_chunk.location.file_name@,
            final(self).data_chunk.location.page_number == old(self).data_chunk.location.page_number,
            chunks.len() == 0 ==> final(self).data_chunk@ == old(self).data_chunk@,
            chunks.len() > 0 ==> final(self).data_chunk@ == (DataChunkView {
                chunk_content: chunks@.last()@,
                location: ChunkLocationView {
                    paragraph_number: (chunks.len() - 1) as u16,
                    ..old(self).data_chunk.location@
                },
            }),
            chunks.len() > 0 ==> final(paragraphs)@.contains_key(
                paragraph_key_of(page_number, (chunks.len() - 1) as u16),
            ) && final(paragraphs)@[paragraph_key_of(page_number, (chunks.len() - 1) as u16)]@
                == final(self).data_chunk@,
    {
        let ghost template_name = self.data_chunk.location.file_name@;
        let ghost template_page = self.data_chunk.location.page_number;
        let ghost first_chunk = self.data_chunk@;
        let ghost first_location = self.chunk_location@;
        let ghost chunk_texts = chunks@.map_values(|c: String| c@);
        let ghost before = paragraphs@.map_values(|c: DataChunk| c@);
        self.chunk_location.page_number = page_number;
        let mut num: usize = 0;
        while num < chunks.len()
            invariant
                num <= chunks.len(),
                chunk_texts == chunks@.map_values(|c: String| c@),
                paragraphs@.map_values(|c: DataChunk| c@) == before.union_prefer_right(
                    page_paragraphs(page_number, chunk_texts.take(num as int), template_name, template_page),
                ),
                template_name == self.data_chunk.location.file_name@,
                template_page == self.data_chunk.location.page_number,
                self.chunk_location.page_number == page_number,
                self.chunk_location.file_name@ == first_location.file_name,
                self.chunk_location.paragraph_number == first_location.paragraph_number,
                num == 0 ==> self.data_chunk@ == first_chunk,
                num > 0 ==> self.data_chunk@ == (DataChunkView {
                    chunk_content: chunk_texts[num - 1],
                    location: ChunkLocationView {
                        file_name: template_name,
                        page_number: template_page,
                        paragraph_number: (num - 1) as u16,
                    },
                }),
            decreases chunks.len() - num,
        {
            self.data_chunk.chunk_content = chunks[num].clone();
            self.data_chunk.location.paragraph_number = num as u16;
            let key = paragraph_key(
                self.chunk_location.page_number,
                self.data_chunk.location.paragraph_number,
            );
            let copy = self.data_chunk.copy_chunk();
            let ghost previous = paragraphs@.map_values(|c: DataChunk| c@);
            paragraphs.insert(key, copy);
            proof {
                assert(paragraphs@.map_values(|c: DataChunk| c@) =~= previous.insert(key, copy@));
                assert(chunk_texts[num as int] == chunks@[num as int]@);
                let shorter = chunk_texts.take(num as int);
                let longer = chunk_texts.take(num + 1);
                assert(longer.drop_last() =~= shorter);
                assert(page_paragraphs(page_number, longer, template_name, template_page) == page_paragraphs(
                    page_number,
                    shorter,
                    template_name, template_page,
                ).insert(key, copy@));
                assert(before.union_prefer_right(page_paragraphs(page_number, longer, template_name, template_page))
                    =~= before.union_prefer_right(
                    page_paragraphs(page_number, shorter, template_name, template_page),
                ).insert(key, copy@));
                assert(paragraphs@.map_values(|c: DataChunk| c@) =~= before.union_prefer_right(
                    page_paragraphs(page_number, longer, template_name, template_page),
                ));
            }
            num = num + 1;
        }
        proof {
            assert(chunk_texts.take(chunks.len() as int) =~= chunk_texts);
            if chunks.len() > 0 {
                let k = paragraph_key_of(page_number, (chunks.len() - 1) as u16);
                let added = page_paragraphs(page_number, chunk_texts, template_name, template_page);
                assert(added.contains_key(k));
                assert(added[k] == self.data_chunk@);
                assert(paragraphs@.map_values(|c: DataChunk| c@).contains_key(k));
                assert(paragraphs@.map_values(|c: DataChunk| c@)[k] == paragraphs@[k]@);
            }
        }
    }

    /// Splits the text of every page into chunks of at most `MAX_CHARACTERS`
    /// characters, as `text_splitter` does, and stores chunk `n` of page `p` under
    /// `paragraph_key(p, n)` (`n` kept in sixteen bits): a copy of the current chunk
    /// with that content and paragraph number `n`. The current page becomes each page
    /// in turn, in the order in which the map is walked, and the current chunk each
    /// stored chunk in turn.
    pub fn parse_pages_into_paragraphs(&mut self, pages_map: &HashMap<u16, String>) -> (paragraphs:
        HashMap<u32, DataChunk>)
        ensures
            paragraphs@.map_values(|c: DataChunk| c@) == all_paragraphs(
                pages_map@.map_values(|s: String| s@),
                old(self).data_chunk.location.file_name@,
                old(self).data_chunk.location.page_number,
            ),
            final(self).chunk_location.file_name@ == old(self).chunk_location.file_name@,
            final(self).chunk_location.paragraph_number == old(self).chunk_location.paragraph_number,
            pages_map@.is_empty() ==> final(self).chunk_location.page_number == old(
                self,
            ).chunk_location.page_number,
            !pages_map@.is_empty() ==> pages_map@.contains_key(final(self).chunk_location.page_number),
            final(self).data_chunk.location.file_name@ == old(self).data_chunk.location.file_name@,
            final(self).data_chunk.location.page_number == old(self).data_chunk.location.page_number,
            final(self).data_chunk@ == old(self).data_chunk@ || exists|k: u32| #[trigger]
                paragraphs@.contains_key(k) && paragraphs@[k]@ == final(self).data_chunk@,
            forall|k: u32| #[trigger]
                paragraphs@.contains_key(k) ==> paragraphs@[k].chunk_content@.len() <= MAX_CHARACTERS,
            forall|p: u16| #[trigger]
                pages_map@.contains_key(p) ==> chunks_fit_text(
                    text_splitter_chunks(MAX_CHARACTERS, pages_map@[p]@),
                    pages_map@[p]@,
                    MAX_CHARACTERS as nat,
                ),
    {
        let ghost pages = pages_map@.map_values(|s: String| s@);
        let ghost template_name = self.data_chunk.location.file_name@;
        let ghost template_page = self.data_chunk.location.page_number;
        let ghost first_chunk = self.data_chunk@;
        let ghost first_location = self.chunk_location@;
        let ghost entries = vstd::std_specs::hash::spec_hash_map_iter(pages_map).remaining();
        let page_entries = pages_map.iter();
        assert(page_entries.remaining() == entries);
        assert(entries.no_duplicates());
        let mut result: HashMap<u32, DataChunk> = HashMap::new();
        let ghost mut done: Set<u16> = Set::empty();
        assert(result@.map_values(|c: DataChunk| c@) =~= paragraphs_of_pages(pages, done, template_name, template_page));
        proof {
            assert forall|i: int, j: int|
                0 <= i < entries.len() && 0 <= j < entries.len() && i != j implies *entries[i].0
                != *entries[j].0 by {
                if *entries[i].0 == *entries[j].0 {
                    assert(pages_map@.contains_key(*entries[i].0));
                    assert(pages_map@.contains_key(*entries[j].0));
                    assert(entries[i] == entries[j]);
                }
            }
        }
        for entry in it: page_entries
            invariant
                it.seq() == entries,
                pages == pages_map@.map_values(|s: String| s@),
                entries.no_duplicates(),
                forall|i: int|
                    0 <= i < entries.len() ==> #[trigger] pages_map@.contains_key(*entries[i].0)
                        && pages_map@[*entries[i].0] == *entries[i].1,
                forall|i: int, j: int|
                    0 <= i < entries.len() && 0 <= j < entries.len() && i != j ==> *entries[i].0
                        != *entries[j].0,
                forall|k: u16| #[trigger]
                    pages_map@.contains_key(k) ==> entries.contains((&k, &pages_map@[k])),
                forall|p: u16|
                    #[trigger] done.contains(p) <==> exists|i: int|
                        0 <= i < it.index() && *entries[i].0 == p,
                result@.map_values(|c: DataChunk| c@) == paragraphs_of_pages(pages, done, template_name, template_page),
                template_name == self.data_chunk.location.file_name@,
                template_page == self.data_chunk.location.page_number,
                self.chunk_location.file_name@ == first_location.file_name,
                self.chunk_location.paragraph_number == first_location.paragraph_number,
                it.index() == 0 ==> self.chunk_location.page_number == first_location.page_number,
                it.index() > 0 ==> pages_map@.contains_key(self.chunk_location.page_number),
                self.data_chunk@ == first_chunk || exists|k: u32| #[trigger]
                    result@.contains_key(k) && result@[k]@ == self.data_chunk@,
                forall|k: u32| #[trigger]
                    result@.contains_key(k) ==> result@[k].chunk_content@.len() <= MAX_CHARACTERS,
                forall|p: u16| #[trigger]
                    done.contains(p) ==> chunks_fit_text(
                        text_splitter_chunks(MAX_CHARACTERS, pages[p]),
                        pages[p],
                        MAX_CHARACTERS as nat,
                    ),
        {
            let page_number: u16 = *entry.0;
            let text: &String = entry.1;
            proof {
                assert(pages_map@.contains_key(page_number));
                assert(!done.contains(page_number));
            }
            let max_characters: usize = MAX_CHARACTERS;
            let chunks = split_into_chunks(max_characters, text.as_str());
            let ghost before_map = result@;
            self.add_page_chunks(page_number, &chunks, &mut result);
            proof {
                let chunk_texts = chunks@.map_values(|c: String| c@);
                assert(pages[page_number] == text@);
                assert forall|i: int| 0 <= i < chunk_texts.len() implies #[trigger] chunk_texts[i].len()
                    <= MAX_CHARACTERS by {
                    assert(0 < chunk_texts[i].len() <= MAX_CHARACTERS);
                }
                lemma_page_paragraph_sizes(
                    page_number,
                    chunk_texts,
                    template_name,
                    template_page,
                    MAX_CHARACTERS as nat,
                );
                let added = page_paragraphs(page_number, chunk_texts, template_name, template_page);
                assert forall|k: u32| #[trigger] result@.contains_key(k) implies result@[k].chunk_content@.len()
                    <= MAX_CHARACTERS by {
                    assert(result@.map_values(|c: DataChunk| c@).contains_key(k));
                    assert(result@.map_values(|c: DataChunk| c@)[k] == result@[k]@);
                    if !added.contains_key(k) {
                        assert(before_map.map_values(|c: DataChunk| c@).contains_key(k));
                        assert(before_map.map_values(|c: DataChunk| c@)[k] == before_map[k]@);
                    }
                }
                assert(pages[page_number] == text@);
                lemma_add_page(pages, done, page_number, template_name, template_page);
                if chunks.len() > 0 {
                    let k = paragraph_key_of(page_number, (chunks.len() - 1) as u16);
                    assert(result@.contains_key(k));
                } else if self.data_chunk@ != first_chunk {
                    let k = choose|k: u32| #[trigger]
                        before_map.contains_key(k) && before_map[k]@ == self.data_chunk@;
                    assert(chunks@.map_values(|c: String| c@) =~= Seq::<Seq<char>>::empty());
                    assert(before_map.map_values(|c: DataChunk| c@).contains_key(k));
                    assert(result@.map_values(|c: DataChunk| c@).contains_key(k));
                    assert(result@.map_values(|c: DataChunk| c@)[k] == before_map.map_values(
                        |c: DataChunk| c@,
                    )[k]);
                    assert(result@.contains_key(k));
                }
                done = done.insert(page_number);
            }
        }
        proof {
            assert(done =~= pages.dom()) by {
                assert forall|p: u16| pages.dom().contains(p) implies done.contains(p) by {
                    assert(entries.contains((&p, &pages_map@[p])));
                    let i = choose|i: int| 0 <= i < entries.len() && entries[i] == (&p, &pages_map@[p]);
                    assert(*entries[i].0 == p);
                }
            }
            if !pages_map@.is_empty() {
                assert(entries.len() > 0);
            }
            assert forall|p: u16| #[trigger] pages_map@.contains_key(p) implies chunks_fit_text(
                text_splitter_chunks(MAX_CHARACTERS, pages_map@[p]@),
                pages_map@[p]@,
                MAX_CHARACTERS as nat,
            ) by {
                assert(done.contains(p));
                assert(pages[p] == pages_map@[p]@);
            }
        }
        result
    }
}

} // verus!
