//! The database as a whole: its header, its pages and its macros, and the
//! questions that can be asked of it once it is decoded.
//!
//! The buffer opens with the magic number, the version, the offset of the
//! macros collection and the offset of the trailer, which holds the magic
//! number once more. The page table follows.

use vstd::prelude::*;
use vstd::string::StringSliceAdditionalSpecFns;
use crate::error::ParseError;
use crate::macros::Macros;
use crate::macros::MACRO_TABLE_COUNT;
use crate::macros::ValueModel;
use crate::macros::macros_at;
use crate::pages::Page;
use crate::pages::PageFormat;
use crate::pages::PageModel;
use crate::pages::Pages;
use crate::pages::pages_at;
use crate::utils::eq_ignoring_case;
use crate::utils::num_at;
use crate::utils::parse_num;
use crate::utils::same_ignoring_case;

verus! {

/// The number that opens and closes a database.
pub const DB_MAGIC_NUMBER: usize = 0x3a7d0cdb;

/// The one version of the format that is known.
pub const DB_VERSION_NUMBER: usize = 1;

/// The offset of the magic number at the head of the buffer.
pub const MAGIC_OFFSET: usize = 0;

/// The offset of the version number.
pub const VERSION_OFFSET: usize = 4;

/// The offset of the number that says where the macros collection starts.
pub const MACROS_POINTER_OFFSET: usize = 8;

/// The offset of the number that says where the trailer starts.
pub const TRAILER_POINTER_OFFSET: usize = 12;

/// A decoded database. All its text borrows from the buffer it was decoded
/// from.
#[derive(Debug, Clone)]
pub struct Database<'a> {
    pub magic: usize,
    pub version: usize,
    /// Where the macros collection starts.
    pub macros_start: usize,
    /// Where the trailer starts.
    pub trailer_start: usize,
    pub pages: Pages<'a>,
    pub macros: Macros<'a>,
}

/// A database as a plain value.
pub ghost struct DatabaseModel {
    pub magic: usize,
    pub version: usize,
    pub macros_start: usize,
    pub trailer_start: usize,
    pub pages: Seq<PageModel>,
    pub macros: Seq<Seq<ValueModel>>,
}

impl<'a> View for Database<'a> {
    type V = DatabaseModel;

    open spec fn view(&self) -> DatabaseModel {
        DatabaseModel {
            magic: self.magic,
            version: self.version,
            macros_start: self.macros_start,
            trailer_start: self.trailer_start,
            pages: self.pages@,
            macros: self.macros@,
        }
    }
}

/// What checking the two magic numbers gives: the offset of the trailer.
/// The number at the head, the trailer pointer and the number at the
/// trailer are read in this order, and only then compared.
pub open spec fn magic_at(bytes: Seq<u8>) -> Result<usize, ParseError> {
    match num_at(bytes, MAGIC_OFFSET as int) {
        Err(e) => Err(e),
        Ok(header) => match num_at(bytes, TRAILER_POINTER_OFFSET as int) {
            Err(e) => Err(e),
            Ok(trailer_start) => match num_at(bytes, trailer_start as int) {
                Err(e) => Err(e),
                Ok(trailer) => if header != DB_MAGIC_NUMBER || trailer != DB_MAGIC_NUMBER {
                    Err(ParseError::InvalidMagic { header, trailer })
                } else {
                    Ok(trailer_start)
                },
            },
        },
    }
}

/// What checking the version gives.
pub open spec fn version_at(bytes: Seq<u8>) -> Result<usize, ParseError> {
    match num_at(bytes, VERSION_OFFSET as int) {
        Err(e) => Err(e),
        Ok(version) => if version != DB_VERSION_NUMBER {
            Err(ParseError::InvalidVersion { found: version })
        } else {
            Ok(version)
        },
    }
}

/// What decoding a whole buffer gives. The magic numbers are checked
/// first, then the version; the pages are read next and the macros last.
/// The first step that fails decides the error.
pub open spec fn database_at(bytes: Seq<u8>) -> Result<DatabaseModel, ParseError> {
    match magic_at(bytes) {
        Err(e) => Err(e),
        Ok(trailer_start) => match version_at(bytes) {
            Err(e) => Err(e),
            Ok(version) => match pages_at(bytes) {
                Err(e) => Err(e),
                Ok(pages) => match num_at(bytes, MACROS_POINTER_OFFSET as int) {
                    Err(e) => Err(e),
                    Ok(macros_start) => match macros_at(bytes, macros_start as int) {
                        Err(e) => Err(e),
                        Ok(macros) => Ok(
                            DatabaseModel {
                                magic: DB_MAGIC_NUMBER,
                                version,
                                macros_start,
                                trailer_start,
                                pages,
                                macros,
                            },
                        ),
                    },
                },
            },
        },
    }
}

/// The outcome of decoding a buffer, as a plain value.
pub open spec fn database_outcome(r: Result<Database, ParseError>) -> Result<
    DatabaseModel,
    ParseError,
> {
    match r {
        Ok(db) => Ok(db@),
        Err(e) => Err(e),
    }
}

/// Whether name `j` of page `i` is `query` but for the case of ASCII letters.
pub open spec fn name_hit(pages: Seq<PageModel>, query: Seq<u8>, i: int, j: int) -> bool {
    &&& 0 <= i < pages.len()
    &&& 0 <= j < pages[i].names.len()
    &&& same_ignoring_case(pages[i].names[j].text, query)
}

/// Whether name `j` of page `i` is the first to match `query`: no name of
/// an earlier page matches, and no earlier name of page `i`.
pub open spec fn first_hit(pages: Seq<PageModel>, query: Seq<u8>, i: int, j: int) -> bool {
    &&& name_hit(pages, query, i, j)
    &&& forall|i2: int, j2: int| #[trigger]
        name_hit(pages, query, i2, j2) ==> i < i2 || (i == i2 && j <= j2)
}

/// The number of files of all of `pages` together.
pub open spec fn total_files(pages: Seq<PageModel>) -> nat
    decreases pages.len(),
{
    if pages.len() == 0 {
        0
    } else {
        total_files(pages.drop_last()) + pages.last().files.len()
    }
}

/// Whether `i` is the index of a preformatted page.
pub open spec fn is_preformatted(pages: Seq<PageModel>, i: int) -> bool {
    0 <= i < pages.len() && pages[i].format == PageFormat::Preformatted
}

/// Whether no name of any page matches `query`.
pub open spec fn no_hit(pages: Seq<PageModel>, query: Seq<u8>) -> bool {
    forall|i: int, j: int| !#[trigger] name_hit(pages, query, i, j)
}

impl<'a> Database<'a> {
    /// Whether the database is as a decoded database is: it carries the
    /// magic number and the known version, its page table and each macro
    /// table hold as many entries as they declare, and there are
    /// `MACRO_TABLE_COUNT` macro tables.
    pub open spec fn wf(&self) -> bool {
        &&& self.magic == DB_MAGIC_NUMBER
        &&& self.version == DB_VERSION_NUMBER
        &&& self.pages.wf()
        &&& self.macros.wf()
    }

    /// Decodes a whole buffer.
    pub fn parse(bytes: &'a [u8]) -> (r: Result<Database<'a>, ParseError>)
        ensures
            database_outcome(r) == database_at(bytes@),
            r matches Ok(db) ==> db.wf(),
    {
        let header: usize = parse_num(bytes, MAGIC_OFFSET)?;
        let trailer_start: usize = parse_num(bytes, TRAILER_POINTER_OFFSET)?;
        let trailer: usize = parse_num(bytes, trailer_start)?;
        if header != DB_MAGIC_NUMBER || trailer != DB_MAGIC_NUMBER {
            return Err(ParseError::InvalidMagic { header, trailer });
        }
        let version: usize = parse_num(bytes, VERSION_OFFSET)?;
        if version != DB_VERSION_NUMBER {
            return Err(ParseError::InvalidVersion { found: version });
        }
        let pages = Pages::parse(bytes)?;
        let macros_start: usize = parse_num(bytes, MACROS_POINTER_OFFSET)?;
        let macros = Macros::parse(bytes, macros_start)?;
        Ok(Database { magic: header, version, macros_start, trailer_start, pages, macros })
    }

    /// The number of pages that the database declares; in a well-formed
    /// database, the number of pages it holds.
    pub fn page_count(&self) -> (r: usize)
        ensures
            r == self.pages.count,
            self.wf() ==> r == self@.pages.len(),
    {
        self.pages.count
    }

    /// The number of macro tables that the database declares; in a
    /// well-formed database, `MACRO_TABLE_COUNT`.
    pub fn macro_count(&self) -> (r: usize)
        ensures
            r == self.macros.count,
            self.wf() ==> r == MACRO_TABLE_COUNT && r == self@.macros.len(),
    {
        self.macros.count
    }

    /// The number of files of all pages together.
    pub fn total_file_count(&self) -> (r: u128)
        ensures
            r == total_files(self@.pages),
    {
        let ghost pages = self@.pages;
        let mut total: u128 = 0;
        let mut i: usize = 0;
        while i < self.pages.table.len()
            invariant
                i <= self.pages.table@.len(),
                pages == self@.pages,
                total == total_files(pages.take(i as int)),
                total <= i * usize::MAX,
            decreases self.pages.table@.len() - i,
        {
            let files: usize = self.pages.table[i].files.len();
            proof {
                assert(pages.take(i + 1).drop_last() =~= pages.take(i as int));
                assert(pages.take(i + 1).last().files.len() == files);
            }
            total = total + files as u128;
            i = i + 1;
        }
        proof {
            assert(pages.take(i as int) =~= pages);
        }
        total
    }

    /// The page of index `index`, if there is one.
    pub fn page(&self, index: usize) -> (r: Option<&Page<'a>>)
        ensures
            index < self.pages.table@.len() ==> r == Some(&self.pages.table@[index as int]),
            index >= self.pages.table@.len() ==> r is None,
    {
        if index < self.pages.table.len() {
            Some(&self.pages.table[index])
        } else {
            None
        }
    }

    /// The indices of the preformatted pages, in rising order.
    pub fn preformatted_pages(&self) -> (r: Vec<usize>)
        ensures
            forall|k: int| 0 <= k < r@.len() ==> is_preformatted(self@.pages, #[trigger] r@[k] as int),
            forall|k: int, l: int| 0 <= k < l < r@.len() ==> r@[k] < r@[l],
            forall|i: int| is_preformatted(self@.pages, i) ==> r@.contains(i as usize),
    {
        let ghost pages = self@.pages;
        let mut found: Vec<usize> = Vec::new();
        let mut i: usize = 0;
        while i < self.pages.table.len()
            invariant
                i <= self.pages.table@.len(),
                pages == self@.pages,
                forall|k: int| 0 <= k < found@.len() ==> is_preformatted(pages, #[trigger] found@[k] as int)
                    && found@[k] < i,
                forall|k: int, l: int| 0 <= k < l < found@.len() ==> found@[k] < found@[l],
                forall|n: int| is_preformatted(pages, n) && n < i ==> found@.contains(n as usize),
            decreases self.pages.table@.len() - i,
        {
            let ghost before = found@;
            match self.pages.table[i].format {
                PageFormat::Preformatted => {
                    found.push(i);
                    proof {
                        assert(found@[before.len() as int] == i);
                        assert forall|n: int| is_preformatted(pages, n) && n < i + 1 implies found@.contains(
                            n as usize,
                        ) by {
                            if n < i {
                                let k = choose|k: int| 0 <= k < before.len() && before[k] == n as usize;
                                assert(found@[k] == n as usize);
                            }
                        }
                    }
                },
                PageFormat::MdocMan => {},
            }
            i = i + 1;
        }
        found
    }

    /// Finds the first name that is `query` but for the case of ASCII
    /// letters, going through the pages in order and through the names of
    /// each page in order. Returns the index of the page and the index of
    /// the name in it.
    pub fn search_position(&self, query: &str) -> (r: Option<(usize, usize)>)
        ensures
            match r {
                Some((i, j)) => first_hit(self@.pages, query.spec_bytes(), i as int, j as int),
                None => no_hit(self@.pages, query.spec_bytes()),
            },
    {
        let ghost pages = self@.pages;
        let ghost q = query.spec_bytes();
        let mut i: usize = 0;
        while i < self.pages.table.len()
            invariant
                i <= self.pages.table@.len(),
                pages == self@.pages,
                q == query.spec_bytes(),
                forall|i2: int, j2: int| #[trigger] name_hit(pages, q, i2, j2) ==> i <= i2,
            decreases self.pages.table@.len() - i,
        {
            let page = &self.pages.table[i];
            let mut j: usize = 0;
            while j < page.names.len()
                invariant
                    i < self.pages.table@.len(),
                    *page == self.pages.table@[i as int],
                    j <= page.names@.len(),
                    pages == self@.pages,
                    q == query.spec_bytes(),
                    forall|i2: int, j2: int| #[trigger]
                        name_hit(pages, q, i2, j2) ==> i < i2 || (i == i2 && j <= j2),
                decreases page.names@.len() - j,
            {
                if eq_ignoring_case(page.names[j].value, query) {
                    return Some((i, j));
                }
                j = j + 1;
            }
            i = i + 1;
        }
        None
    }

    /// Finds the first page that has a name which is `query` but for the
    /// case of ASCII letters.
    pub fn search(&self, query: &str) -> (r: Option<&Page<'a>>)
        ensures
            match r {
                Some(page) => exists|i: int, j: int|
                    first_hit(self@.pages, query.spec_bytes(), i, j) && *page
                        == self.pages.table@[i],
                None => no_hit(self@.pages, query.spec_bytes()),
            },
    {
        match self.search_position(query) {
            Some((i, _)) => Some(&self.pages.table[i]),
            None => None,
        }
    }
}

} // verus!
