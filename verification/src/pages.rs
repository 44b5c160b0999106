//! Pages: the names, sections, architectures, description and files of one
//! manual page, and the table of all of them.
//!
//! A page record is five numbers, each the offset of one of its parts:
//! names, sections, architectures, description, files. The records stand
//! one behind the other from offset 20 on; the number at offset 16 says how
//! many there are.

use vstd::prelude::*;
use vstd::string::StringSliceAdditionalSpecFns;
use crate::error::ParseError;
use crate::utils::be_u32;
use crate::utils::followed_by;
use crate::utils::lemma_nul_from;
use crate::utils::lemma_run_of_fails;
use crate::utils::run_of;
use crate::utils::list_at;
use crate::utils::nul_from;
use crate::utils::num_at;
use crate::utils::parse_list;
use crate::utils::parse_num;
use crate::utils::parse_str;
use crate::utils::text_at;
use crate::utils::texts;

verus! {

/// The offset of the number that counts the page records.
pub const PAGE_COUNT_OFFSET: usize = 16;

/// The offset of the first page record.
pub const PAGE_TABLE_OFFSET: usize = 20;

/// The size of one page record.
pub const PAGE_RECORD_SIZE: usize = 20;

/// The largest source byte a name can carry: all five source bits set.
pub const NAME_SOURCE_MAX: u8 = 31;

/// One name of a page, and where in the page it was found.
///
/// The bits of `source`, from the lowest up: a SYNOPSIS `.Nm` block, any
/// NAME `.Nm` macro, the first NAME `.Nm` macro, a header line, a file name.
#[derive(Debug, Clone)]
pub struct Name<'a> {
    pub value: &'a str,
    pub source: u8,
}

/// A name as a plain value: the bytes of its text, and its source byte.
pub ghost struct NameModel {
    pub text: Seq<u8>,
    pub source: u8,
}

impl<'a> View for Name<'a> {
    type V = NameModel;

    open spec fn view(&self) -> NameModel {
        NameModel { text: self.value.spec_bytes(), source: self.source }
    }
}

/// The format of the file a page was made from.
#[derive(Debug, Clone, Copy, PartialEq, Eq, Structural)]
pub enum PageFormat {
    /// Tag 1: mdoc(7) or man(7) source.
    MdocMan,
    /// Tag 2: a preformatted page.
    Preformatted,
}

/// One manual page.
#[derive(Debug, Clone)]
pub struct Page<'a> {
    pub names: Vec<Name<'a>>,
    pub sects: Vec<&'a str>,
    /// `None` for a page that belongs to no architecture in particular,
    /// which is not the same as an empty list.
    pub archs: Option<Vec<&'a str>>,
    pub desc: &'a str,
    pub files: Vec<&'a str>,
    pub format: PageFormat,
}

/// A page as a plain value, all text taken by its bytes.
pub ghost struct PageModel {
    pub names: Seq<NameModel>,
    pub sects: Seq<Seq<u8>>,
    pub archs: Option<Seq<Seq<u8>>>,
    pub desc: Seq<u8>,
    pub files: Seq<Seq<u8>>,
    pub format: PageFormat,
}

impl<'a> View for Page<'a> {
    type V = PageModel;

    open spec fn view(&self) -> PageModel {
        PageModel {
            names: name_views(self.names@),
            sects: texts(self.sects@),
            archs: match self.archs {
                Some(archs) => Some(texts(archs@)),
                None => None,
            },
            desc: self.desc.spec_bytes(),
            files: texts(self.files@),
            format: self.format,
        }
    }
}

/// The table of pages, with the count that the buffer declares for it.
#[derive(Debug, Clone)]
pub struct Pages<'a> {
    pub count: usize,
    pub table: Vec<Page<'a>>,
}

impl<'a> View for Pages<'a> {
    type V = Seq<PageModel>;

    open spec fn view(&self) -> Seq<PageModel> {
        page_views(self.table@)
    }
}

/// Each name of `names` as a plain value, in order.
pub open spec fn name_views(names: Seq<Name>) -> Seq<NameModel> {
    Seq::new(names.len(), |i: int| names[i]@)
}

/// Each page of `pages` as a plain value, in order.
pub open spec fn page_views(pages: Seq<Page>) -> Seq<PageModel> {
    Seq::new(pages.len(), |i: int| pages[i]@)
}

/// Whether `source` is a source byte that a name can carry.
pub open spec fn source_in_range(source: u8) -> bool {
    1 <= source <= NAME_SOURCE_MAX
}

/// Whether every name of `names` carries a source byte that is in range.
pub open spec fn sources_in_range(names: Seq<NameModel>) -> bool {
    forall|i: int| 0 <= i < names.len() ==> source_in_range(#[trigger] names[i].source)
}

/// What reading a name list at `start` gives. A NUL where an entry would
/// begin ends the list. Any other byte is the source byte of an entry and
/// has to be in range; the name's text follows it, read as `text_at` reads
/// a string, and the list goes on behind the text's NUL.
pub open spec fn names_at(bytes: Seq<u8>, start: int) -> Result<Seq<NameModel>, ParseError>
    decreases bytes.len() - start,
{
    if start < 0 || start >= bytes.len() {
        Err(ParseError::OutOfBounds { offset: start as usize })
    } else if bytes[start] == 0 {
        Ok(Seq::empty())
    } else if !source_in_range(bytes[start]) {
        Err(ParseError::MalformedList { offset: start as usize })
    } else {
        match text_at(bytes, start + 1) {
            Err(e) => Err(e),
            Ok(text) => {
                proof {
                    lemma_nul_from(bytes, start + 1);
                }
                followed_by(
                    seq![NameModel { text, source: bytes[start] }],
                    names_at(bytes, nul_from(bytes, start + 1) + 1),
                )
            },
        }
    }
}

/// The format that a tag byte names, if it names one.
pub open spec fn format_of_tag(tag: u8) -> Option<PageFormat> {
    if tag == 1 {
        Some(PageFormat::MdocMan)
    } else if tag == 2 {
        Some(PageFormat::Preformatted)
    } else {
        None
    }
}

/// What reading the format byte at `idx` gives.
pub open spec fn format_at(bytes: Seq<u8>, idx: int) -> Result<PageFormat, ParseError> {
    if idx < 0 || idx >= bytes.len() {
        Err(ParseError::OutOfBounds { offset: idx as usize })
    } else {
        match format_of_tag(bytes[idx]) {
            Some(format) => Ok(format),
            None => Err(ParseError::UnknownFormatTag { offset: idx as usize, tag: bytes[idx] }),
        }
    }
}

/// What reading the architectures of a page gives, `idx` being the number
/// found in the page record: zero stands for a page without architectures,
/// anything else is the offset of a string list.
pub open spec fn archs_at(bytes: Seq<u8>, idx: int) -> Result<Option<Seq<Seq<u8>>>, ParseError> {
    if idx == 0 {
        Ok(None)
    } else {
        match list_at(bytes, idx) {
            Ok(archs) => Ok(Some(archs)),
            Err(e) => Err(e),
        }
    }
}

/// What reading the page record at `start` gives. The whole record has to
/// lie inside the buffer. Its parts are then read in the order names,
/// sections, architectures, description, format byte, files, and the first
/// part that cannot be read decides the error. The format byte stands at
/// the files offset, the file list right behind it.
pub open spec fn page_at(bytes: Seq<u8>, start: int) -> Result<PageModel, ParseError> {
    if start < 0 || start + PAGE_RECORD_SIZE > bytes.len() {
        Err(ParseError::OutOfBounds { offset: start as usize })
    } else {
        match names_at(bytes, be_u32(bytes, start)) {
            Err(e) => Err(e),
            Ok(names) => match list_at(bytes, be_u32(bytes, start + 4)) {
                Err(e) => Err(e),
                Ok(sects) => match archs_at(bytes, be_u32(bytes, start + 8)) {
                    Err(e) => Err(e),
                    Ok(archs) => match text_at(bytes, be_u32(bytes, start + 12)) {
                        Err(e) => Err(e),
                        Ok(desc) => match format_at(bytes, be_u32(bytes, start + 16)) {
                            Err(e) => Err(e),
                            Ok(format) => match list_at(bytes, be_u32(bytes, start + 16) + 1) {
                                Err(e) => Err(e),
                                Ok(files) => Ok(
                                    PageModel { names, sects, archs, desc, files, format },
                                ),
                            },
                        },
                    },
                },
            },
        }
    }
}

/// What reading `n` page records gives, the first of them at `first`: the
/// pages in order, or the error of the first record that cannot be read.
pub open spec fn page_run(bytes: Seq<u8>, first: int, n: nat) -> Result<Seq<PageModel>, ParseError> {
    run_of(|i: int| page_at(bytes, first + PAGE_RECORD_SIZE * i), n)
}

/// What reading the page table gives: as many records as the number at
/// offset 16 declares, from offset 20 on.
pub open spec fn pages_at(bytes: Seq<u8>) -> Result<Seq<PageModel>, ParseError> {
    match num_at(bytes, PAGE_COUNT_OFFSET as int) {
        Err(e) => Err(e),
        Ok(count) => page_run(bytes, PAGE_TABLE_OFFSET as int, count as nat),
    }
}

/// The outcome of reading a name list, as plain values.
pub open spec fn names_outcome(r: Result<Vec<Name>, ParseError>) -> Result<
    Seq<NameModel>,
    ParseError,
> {
    match r {
        Ok(names) => Ok(name_views(names@)),
        Err(e) => Err(e),
    }
}

/// The outcome of reading a page, as a plain value.
pub open spec fn page_outcome(r: Result<Page, ParseError>) -> Result<PageModel, ParseError> {
    match r {
        Ok(page) => Ok(page@),
        Err(e) => Err(e),
    }
}

/// The outcome of reading the page table, as plain values.
pub open spec fn pages_outcome(r: Result<Pages, ParseError>) -> Result<
    Seq<PageModel>,
    ParseError,
> {
    match r {
        Ok(pages) => Ok(pages@),
        Err(e) => Err(e),
    }
}

impl PageFormat {
    /// The format that `tag` names: 1 for mdoc(7) or man(7), 2 for
    /// preformatted. No other byte names a format.
    pub fn from_tag(tag: u8) -> (r: Option<PageFormat>)
        ensures
            r == format_of_tag(tag),
            tag == 1 ==> r == Some(PageFormat::MdocMan),
            tag == 2 ==> r == Some(PageFormat::Preformatted),
            tag != 1 && tag != 2 ==> r is None,
    {
        if tag == 1 {
            Some(PageFormat::MdocMan)
        } else if tag == 2 {
            Some(PageFormat::Preformatted)
        } else {
            None
        }
    }
}

impl<'a> Name<'a> {
    /// Reads the name list that starts at `start`: entries of one source
    /// byte and one string each, closed by a NUL of its own.
    pub fn parse_names(bytes: &'a [u8], start: usize) -> (r: Result<Vec<Name<'a>>, ParseError>)
        ensures
            names_outcome(r) == names_at(bytes@, start as int),
            r matches Ok(names) ==> sources_in_range(name_views(names@)),
    {
        let mut names: Vec<Name<'a>> = Vec::new();
        let mut cur: usize = start;
        loop
            invariant
                names_at(bytes@, start as int) == followed_by(
                    name_views(names@),
                    names_at(bytes@, cur as int),
                ),
                sources_in_range(name_views(names@)),
            decreases bytes@.len() - cur,
        {
            if cur >= bytes.len() {
                return Err(ParseError::OutOfBounds { offset: cur });
            }
            let source: u8 = bytes[cur];
            if source == 0 {
                assert(name_views(names@) + Seq::<NameModel>::empty() =~= name_views(names@));
                return Ok(names);
            }
            if source > NAME_SOURCE_MAX {
                return Err(ParseError::MalformedList { offset: cur });
            }
            let ghost before = name_views(names@);
            match parse_str(bytes, cur + 1) {
                Err(e) => {
                    return Err(e);
                },
                Ok(value) => {
                    let end: usize = cur + 1 + value.len();
                    let name = Name { value, source };
                    proof {
                        let rest = names_at(bytes@, end + 1);
                        assert(names_at(bytes@, cur as int) == followed_by(seq![name@], rest));
                        assert(name_views(names@.push(name)) =~= before.push(name@));
                        assert(rest matches Ok(more) ==> before + (seq![name@] + more)
                            =~= before.push(name@) + more);
                    }
                    names.push(name);
                    cur = end + 1;
                },
            }
        }
    }
}

impl<'a> Page<'a> {
    /// Whether the page is as a decoded page is: every name carries a source
    /// byte that is in range.
    pub open spec fn wf(&self) -> bool {
        sources_in_range(name_views(self.names@))
    }

    /// The names of the page.
    pub fn names(&self) -> (r: &Vec<Name<'a>>)
        ensures
            r == &self.names,
    {
        &self.names
    }

    /// The sections of the page.
    pub fn sections(&self) -> (r: &Vec<&'a str>)
        ensures
            r == &self.sects,
    {
        &self.sects
    }

    /// The architectures of the page; `None` for a page that belongs to no
    /// architecture in particular.
    pub fn architectures(&self) -> (r: Option<&Vec<&'a str>>)
        ensures
            r is None <==> self.archs is None,
            r matches Some(archs) ==> self.archs == Some(*archs),
    {
        match &self.archs {
            Some(archs) => Some(archs),
            None => None,
        }
    }

    /// The one-line description of the page.
    pub fn description(&self) -> (r: &'a str)
        ensures
            r == self.desc,
    {
        self.desc
    }

    /// The files of the page.
    pub fn files(&self) -> (r: &Vec<&'a str>)
        ensures
            r == &self.files,
    {
        &self.files
    }

    /// The format of the page.
    pub fn format(&self) -> (r: PageFormat)
        ensures
            r == self.format,
    {
        self.format
    }

    /// Reads the page whose record starts at `start`.
    pub fn parse(bytes: &'a [u8], start: usize) -> (r: Result<Page<'a>, ParseError>)
        ensures
            page_outcome(r) == page_at(bytes@, start as int),
            r matches Ok(page) ==> page.wf() && start + PAGE_RECORD_SIZE <= bytes@.len() && (
            page.archs is None <==> be_u32(bytes@, start + 8) == 0),
    {
        let len: usize = bytes.len();
        if len < PAGE_RECORD_SIZE || start > len - PAGE_RECORD_SIZE {
            return Err(ParseError::OutOfBounds { offset: start });
        }
        let names_start: usize = parse_num(bytes, start)?;
        let sects_start: usize = parse_num(bytes, start + 4)?;
        let archs_start: usize = parse_num(bytes, start + 8)?;
        let desc_start: usize = parse_num(bytes, start + 12)?;
        let files_start: usize = parse_num(bytes, start + 16)?;
        let names = Name::parse_names(bytes, names_start)?;
        let sects = parse_list(bytes, sects_start)?;
        let archs = if archs_start != 0 {
            Some(parse_list(bytes, archs_start)?)
        } else {
            None
        };
        let desc = parse_str(bytes, desc_start)?;
        if files_start >= len {
            return Err(ParseError::OutOfBounds { offset: files_start });
        }
        let tag: u8 = bytes[files_start];
        let format = match PageFormat::from_tag(tag) {
            Some(format) => format,
            None => { return Err(ParseError::UnknownFormatTag { offset: files_start, tag }); },
        };
        let files = parse_list(bytes, files_start + 1)?;
        Ok(Page { names, sects, archs, desc, files, format })
    }
}

impl<'a> Pages<'a> {
    /// Whether the table is as a decoded table is: it holds as many pages
    /// as it declares, each of them well-formed.
    pub open spec fn wf(&self) -> bool {
        &&& self.count == self.table@.len()
        &&& forall|i: int| 0 <= i < self.table@.len() ==> (#[trigger] self.table@[i]).wf()
    }

    /// Reads the page table of `bytes`.
    pub fn parse(bytes: &'a [u8]) -> (r: Result<Pages<'a>, ParseError>)
        ensures
            pages_outcome(r) == pages_at(bytes@),
            r matches Ok(pages) ==> pages.wf() && num_at(bytes@, PAGE_COUNT_OFFSET as int) == Ok::<
                usize,
                ParseError,
            >(pages.count),
    {
        let count: usize = parse_num(bytes, PAGE_COUNT_OFFSET)?;
        let len: usize = bytes.len();
        let mut table: Vec<Page<'a>> = Vec::new();
        let mut i: usize = 0;
        assert(page_views(table@) =~= Seq::<PageModel>::empty());
        while i < count
            invariant
                i <= count,
                table@.len() == i,
                len == bytes@.len(),
                num_at(bytes@, PAGE_COUNT_OFFSET as int) == Ok::<usize, ParseError>(count),
                PAGE_TABLE_OFFSET + PAGE_RECORD_SIZE * i <= len,
                page_run(bytes@, PAGE_TABLE_OFFSET as int, i as nat) == Ok::<
                    Seq<PageModel>,
                    ParseError,
                >(page_views(table@)),
                forall|k: int| 0 <= k < table@.len() ==> (#[trigger] table@[k]).wf(),
            decreases count - i,
        {
            let ghost before = page_views(table@);
            let page = match Page::parse(bytes, PAGE_TABLE_OFFSET + PAGE_RECORD_SIZE * i) {
                Ok(page) => page,
                Err(e) => {
                    proof {
                        lemma_run_of_fails(
                            |k: int| page_at(bytes@, PAGE_TABLE_OFFSET + PAGE_RECORD_SIZE * k),
                            i as nat,
                            count as nat,
                        );
                    }
                    return Err(e);
                },
            };
            proof {
                assert(page_views(table@.push(page)) =~= before.push(page@));
            }
            table.push(page);
            i = i + 1;
        }
        Ok(Pages { count, table })
    }
}

} // verus!
