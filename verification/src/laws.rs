//! What holds of every buffer and of every decoded database, stated over
//! the functions that say what decoding gives.

use vstd::prelude::*;
use vstd::utf8::valid_utf8;
use crate::database::Database;
use crate::database::database_at;
use crate::database::first_hit;
use crate::database::DatabaseModel;
use crate::database::DB_MAGIC_NUMBER;
use crate::database::DB_VERSION_NUMBER;
use crate::database::MAGIC_OFFSET;
use crate::database::TRAILER_POINTER_OFFSET;
use crate::error::ParseError;
use crate::macros::groups_at;
use crate::macros::macros_at;
use crate::macros::table_entry_at;
use crate::macros::table_run;
use crate::macros::value_at;
use crate::macros::ValueModel;
use crate::macros::MACRO_TABLE_COUNT;
use crate::macros::PAGE_LIST_CAP;
use crate::macros::VALUE_HEADER_SIZE;
use crate::pages::format_at;
use crate::pages::format_of_tag;
use crate::pages::names_at;
use crate::pages::page_at;
use crate::pages::source_in_range;
use crate::pages::sources_in_range;
use crate::pages::NameModel;
use crate::pages::PageFormat;
use crate::pages::PageModel;
use crate::pages::PAGE_COUNT_OFFSET;
use crate::pages::PAGE_RECORD_SIZE;
use crate::pages::PAGE_TABLE_OFFSET;
use crate::utils::be_u32;
use crate::utils::lemma_nul_from;
use crate::utils::lemma_run_of_ok;
use crate::utils::list_at;
use crate::utils::nul_from;
use crate::utils::num_at;
use crate::utils::text_at;

verus! {

/// A well-formed database holds as many pages as its page table declares,
/// and declares and holds `MACRO_TABLE_COUNT` macro tables, each of which
/// holds as many values as it declares.
pub proof fn lemma_wf_counts(db: Database)
    requires
        db.wf(),
    ensures
        db.pages.count == db.pages.table@.len(),
        db@.pages.len() == db.pages.count,
        db.macros.count == MACRO_TABLE_COUNT,
        db.macros.tables@.len() == MACRO_TABLE_COUNT,
        db@.macros.len() == MACRO_TABLE_COUNT,
        forall|i: int|
            0 <= i < db.macros.tables@.len() ==> (#[trigger] db.macros.tables@[i]).count
                == db.macros.tables@[i].values@.len(),
{
}

/// Whatever a buffer decodes to holds as many pages as the buffer declares
/// at the page count offset, and `MACRO_TABLE_COUNT` macro tables, which is
/// also what the buffer declares where its macros collection starts. Each
/// macro table holds as many values as the buffer declares for it.
pub proof fn lemma_decoded_counts(bytes: Seq<u8>)
    requires
        database_at(bytes) is Ok,
    ensures
        ({
            let db = database_at(bytes)->Ok_0;
            &&& db.magic == DB_MAGIC_NUMBER
            &&& db.version == DB_VERSION_NUMBER
            &&& be_u32(bytes, PAGE_COUNT_OFFSET as int) == db.pages.len()
            &&& db.macros.len() == MACRO_TABLE_COUNT
            &&& be_u32(bytes, db.macros_start as int) == MACRO_TABLE_COUNT
            &&& forall|i: int|
                0 <= i < MACRO_TABLE_COUNT ==> be_u32(
                    bytes,
                    be_u32(bytes, db.macros_start + 4 + 4 * i),
                ) == (#[trigger] db.macros[i]).len()
        }),
{
    let db = database_at(bytes)->Ok_0;
    let count = num_at(bytes, PAGE_COUNT_OFFSET as int)->Ok_0;
    lemma_run_of_ok(
        |i: int| page_at(bytes, PAGE_TABLE_OFFSET + PAGE_RECORD_SIZE * i),
        count as nat,
    );
    let first = db.macros_start + 4;
    lemma_run_of_ok(|i: int| table_entry_at(bytes, first, i), MACRO_TABLE_COUNT as nat);
    assert forall|i: int| 0 <= i < MACRO_TABLE_COUNT implies be_u32(
        bytes,
        be_u32(bytes, db.macros_start + 4 + 4 * i),
    ) == (#[trigger] db.macros[i]).len() by {
        assert(table_entry_at(bytes, first, i) == Ok::<Seq<ValueModel>, ParseError>(db.macros[i]));
        let table = num_at(bytes, first + 4 * i)->Ok_0;
        let declared = num_at(bytes, table as int)->Ok_0;
        lemma_run_of_ok(
            |k: int| value_at(bytes, table + 4 + VALUE_HEADER_SIZE * k),
            declared as nat,
        );
    }
}

/// A decoded page is without architectures exactly when the third number
/// of its record is zero.
pub proof fn lemma_archs_absent_iff_zero(bytes: Seq<u8>, start: int)
    requires
        page_at(bytes, start) is Ok,
    ensures
        page_at(bytes, start)->Ok_0.archs is None <==> be_u32(bytes, start + 8) == 0,
        page_at(bytes, start)->Ok_0.archs matches Some(archs) ==> list_at(
            bytes,
            be_u32(bytes, start + 8),
        ) == Ok::<Seq<Seq<u8>>, ParseError>(archs),
{
}

/// A format byte of 1 reads as mdoc(7) or man(7), one of 2 as preformatted,
/// and any other byte is refused as an unknown format tag.
pub proof fn lemma_format_tag(bytes: Seq<u8>, idx: int)
    requires
        0 <= idx < bytes.len(),
    ensures
        bytes[idx] == 1 ==> format_at(bytes, idx) == Ok::<PageFormat, ParseError>(
            PageFormat::MdocMan,
        ),
        bytes[idx] == 2 ==> format_at(bytes, idx) == Ok::<PageFormat, ParseError>(
            PageFormat::Preformatted,
        ),
        bytes[idx] != 1 && bytes[idx] != 2 ==> format_at(bytes, idx) == Err::<
            PageFormat,
            ParseError,
        >(ParseError::UnknownFormatTag { offset: idx as usize, tag: bytes[idx] }),
{
}

/// The format of a decoded page is the one that the byte at its files
/// offset names, and its files are the string list right behind that byte.
pub proof fn lemma_page_format(bytes: Seq<u8>, start: int)
    requires
        page_at(bytes, start) is Ok,
    ensures
        ({
            let page = page_at(bytes, start)->Ok_0;
            let files = be_u32(bytes, start + 16);
            &&& 0 <= files < bytes.len()
            &&& format_of_tag(bytes[files]) == Some(page.format)
            &&& list_at(bytes, files + 1) == Ok::<Seq<Seq<u8>>, ParseError>(page.files)
        }),
{
}

/// A name list entry whose leading byte is above the largest source byte
/// is refused as malformed.
pub proof fn lemma_source_out_of_range(bytes: Seq<u8>, start: int)
    requires
        0 <= start < bytes.len(),
        bytes[start] >= 32,
    ensures
        names_at(bytes, start) == Err::<Seq<NameModel>, ParseError>(
            ParseError::MalformedList { offset: start as usize },
        ),
{
}

/// A decoded name list keeps the source byte of each entry as it stands in
/// the buffer: the first name carries the byte at the start of the list
/// and the text right behind it, and the other names are what the list
/// behind that text's NUL decodes to. Every source byte is in range.
pub proof fn lemma_names_preserved(bytes: Seq<u8>, start: int)
    requires
        names_at(bytes, start) is Ok,
    ensures
        sources_in_range(names_at(bytes, start)->Ok_0),
        names_at(bytes, start)->Ok_0.len() == 0 <==> bytes[start] == 0,
        names_at(bytes, start)->Ok_0.len() > 0 ==> ({
            let names = names_at(bytes, start)->Ok_0;
            let end = nul_from(bytes, start + 1);
            &&& names[0].source == bytes[start]
            &&& source_in_range(bytes[start])
            &&& names[0].text == bytes.subrange(start + 1, end)
            &&& names_at(bytes, end + 1) == Ok::<Seq<NameModel>, ParseError>(names.drop_first())
        }),
    decreases bytes.len() - start,
{
    if bytes[start] != 0 {
        let names = names_at(bytes, start)->Ok_0;
        let end = nul_from(bytes, start + 1);
        lemma_nul_from(bytes, start + 1);
        let rest = names_at(bytes, end + 1)->Ok_0;
        lemma_names_preserved(bytes, end + 1);
        assert(names.drop_first() =~= rest);
        assert forall|i: int| 0 <= i < names.len() implies source_in_range(
            #[trigger] names[i].source,
        ) by {
            if i > 0 {
                assert(names[i] == rest[i - 1]);
            }
        }
    }
}

/// A list that has a NUL where its first entry would begin is empty, be it
/// a string list or a name list.
pub proof fn lemma_nul_first_is_empty(bytes: Seq<u8>, start: int)
    requires
        0 <= start < bytes.len(),
        bytes[start] == 0,
    ensures
        list_at(bytes, start) == Ok::<Seq<Seq<u8>>, ParseError>(Seq::empty()),
        names_at(bytes, start) == Ok::<Seq<NameModel>, ParseError>(Seq::empty()),
{
}

/// A decoded string is a run of the buffer: it starts at its offset, holds
/// no NUL, is UTF-8, and the byte right behind it is a NUL.
pub proof fn lemma_text_in_buffer(bytes: Seq<u8>, start: int)
    requires
        text_at(bytes, start) is Ok,
    ensures
        ({
            let text = text_at(bytes, start)->Ok_0;
            &&& 0 <= start
            &&& start + text.len() < bytes.len()
            &&& text == bytes.subrange(start, start + text.len())
            &&& bytes[start + text.len()] == 0
            &&& forall|k: int| 0 <= k < text.len() ==> #[trigger] text[k] != 0
            &&& valid_utf8(text)
        }),
{
    lemma_nul_from(bytes, start);
}

/// A number whose four bytes do not all lie inside the buffer is refused
/// as out of bounds, at the offset where it was to be read.
pub proof fn lemma_num_out_of_bounds(bytes: Seq<u8>, idx: int)
    requires
        0 <= idx,
        idx + 4 > bytes.len(),
    ensures
        num_at(bytes, idx) == Err::<usize, ParseError>(
            ParseError::OutOfBounds { offset: idx as usize },
        ),
{
}

/// A string that has no NUL between its offset and the end of the buffer
/// is refused as out of bounds; so is one whose offset lies outside the
/// buffer.
pub proof fn lemma_text_out_of_bounds(bytes: Seq<u8>, start: int)
    requires
        0 <= start,
        forall|k: int| start <= k < bytes.len() ==> bytes[k] != 0,
    ensures
        text_at(bytes, start) == Err::<Seq<u8>, ParseError>(
            ParseError::OutOfBounds { offset: start as usize },
        ),
{
    if start <= bytes.len() {
        lemma_nul_from(bytes, start);
    }
}

/// A list entry that has no NUL between its offset and the end of the
/// buffer is refused as out of bounds: a string of a string list at the
/// offset of the string, a name of a name list at the offset of its text.
pub proof fn lemma_entry_out_of_bounds(bytes: Seq<u8>, start: int)
    requires
        0 <= start < bytes.len(),
        forall|k: int| start <= k < bytes.len() ==> bytes[k] != 0,
    ensures
        list_at(bytes, start) == Err::<Seq<Seq<u8>>, ParseError>(
            ParseError::OutOfBounds { offset: start as usize },
        ),
        source_in_range(bytes[start]) ==> names_at(bytes, start) == Err::<
            Seq<NameModel>,
            ParseError,
        >(ParseError::OutOfBounds { offset: (start + 1) as usize }),
{
    lemma_text_out_of_bounds(bytes, start);
    lemma_text_out_of_bounds(bytes, start + 1);
}

/// A list, a format byte or a page record whose offset leaves it no room
/// inside the buffer is refused as out of bounds at that offset.
pub proof fn lemma_offset_out_of_bounds(bytes: Seq<u8>, start: int)
    requires
        0 <= start,
    ensures
        start >= bytes.len() ==> list_at(bytes, start) == Err::<Seq<Seq<u8>>, ParseError>(
            ParseError::OutOfBounds { offset: start as usize },
        ),
        start >= bytes.len() ==> names_at(bytes, start) == Err::<Seq<NameModel>, ParseError>(
            ParseError::OutOfBounds { offset: start as usize },
        ),
        start >= bytes.len() ==> format_at(bytes, start) == Err::<PageFormat, ParseError>(
            ParseError::OutOfBounds { offset: start as usize },
        ),
        start + PAGE_RECORD_SIZE > bytes.len() ==> page_at(bytes, start) == Err::<
            PageModel,
            ParseError,
        >(ParseError::OutOfBounds { offset: start as usize }),
{
}

/// A list of pages never yields more groups than `PAGE_LIST_CAP`.
pub proof fn lemma_page_list_cap(bytes: Seq<u8>, list: int, p: nat)
    requires
        groups_at(bytes, list, p) is Ok,
        p <= PAGE_LIST_CAP,
    ensures
        groups_at(bytes, list, p)->Ok_0.len() <= PAGE_LIST_CAP - p,
    decreases PAGE_LIST_CAP - p,
{
    if p < PAGE_LIST_CAP && num_at(bytes, list + 4 * p)->Ok_0 != 0 {
        lemma_page_list_cap(bytes, list, p + 1);
    }
}

/// At most one name is the first to match a query.
pub proof fn lemma_first_hit_unique(
    pages: Seq<PageModel>,
    query: Seq<u8>,
    i: int,
    j: int,
    i2: int,
    j2: int,
)
    requires
        first_hit(pages, query, i, j),
        first_hit(pages, query, i2, j2),
    ensures
        i == i2,
        j == j2,
{
}

/// A buffer whose head or whose trailer does not hold the magic number is
/// refused for that, whatever else it holds, once the three numbers that
/// the check needs can be read.
pub proof fn lemma_wrong_magic(bytes: Seq<u8>)
    requires
        num_at(bytes, MAGIC_OFFSET as int) is Ok,
        num_at(bytes, TRAILER_POINTER_OFFSET as int) is Ok,
        num_at(bytes, be_u32(bytes, TRAILER_POINTER_OFFSET as int)) is Ok,
        be_u32(bytes, MAGIC_OFFSET as int) != DB_MAGIC_NUMBER || be_u32(
            bytes,
            be_u32(bytes, TRAILER_POINTER_OFFSET as int),
        ) != DB_MAGIC_NUMBER,
    ensures
        database_at(bytes) == Err::<DatabaseModel, ParseError>(
            ParseError::InvalidMagic {
                header: be_u32(bytes, MAGIC_OFFSET as int) as usize,
                trailer: be_u32(bytes, be_u32(bytes, TRAILER_POINTER_OFFSET as int)) as usize,
            },
        ),
{
}

/// A macros collection that declares another number of tables than
/// `MACRO_TABLE_COUNT` is refused for its count, even though every table
/// it declares can be read.
pub proof fn lemma_macro_table_count(bytes: Seq<u8>, start: int)
    requires
        num_at(bytes, start) is Ok,
        table_run(bytes, start + 4, be_u32(bytes, start) as nat) is Ok,
        be_u32(bytes, start) != MACRO_TABLE_COUNT,
    ensures
        macros_at(bytes, start) == Err::<Seq<Seq<ValueModel>>, ParseError>(
            ParseError::CountMismatch {
                expected: MACRO_TABLE_COUNT,
                actual: be_u32(bytes, start) as usize,
            },
        ),
{
}

} // verus!
