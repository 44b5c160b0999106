//! Macros: for each markup macro, the values it takes in the indexed pages
//! and the names of the pages that hold each value.
//!
//! The macros collection is a count and as many offsets of macro tables. A
//! macro table is a count and as many value headers. A value header is two
//! numbers: the offset of the value's string and the offset of its list of
//! pages. The list of pages is a run of page record offsets, closed by a
//! zero.

use vstd::prelude::*;
use vstd::string::StringSliceAdditionalSpecFns;
use crate::error::ParseError;
use crate::pages::Name;
use crate::pages::NameModel;
use crate::pages::name_views;
use crate::pages::names_at;
use crate::pages::sources_in_range;
use crate::utils::followed_by;
use crate::utils::lemma_run_of_fails;
use crate::utils::num_at;
use crate::utils::parse_num;
use crate::utils::parse_str;
use crate::utils::run_of;
use crate::utils::text_at;

verus! {

/// The number of macro tables that a database holds.
pub const MACRO_TABLE_COUNT: usize = 36;

/// The size of one value header.
pub const VALUE_HEADER_SIZE: usize = 8;

/// The number of entries after which a list of pages ends even without its
/// closing zero.
pub const PAGE_LIST_CAP: usize = 21;

/// One value of a macro: its string, and the names of each page that holds it.
#[derive(Debug, Clone)]
pub struct Value<'a> {
    pub str: &'a str,
    /// One group for each page of the value's list, in the order of the list.
    pub page_names: Vec<Vec<Name<'a>>>,
}

/// A macro value as a plain value.
pub ghost struct ValueModel {
    pub text: Seq<u8>,
    pub page_names: Seq<Seq<NameModel>>,
}

impl<'a> View for Value<'a> {
    type V = ValueModel;

    open spec fn view(&self) -> ValueModel {
        ValueModel { text: self.str.spec_bytes(), page_names: group_views(self.page_names@) }
    }
}

/// The values of one macro, with the count that the buffer declares.
#[derive(Debug, Clone)]
pub struct Table<'a> {
    pub count: usize,
    pub values: Vec<Value<'a>>,
}

impl<'a> View for Table<'a> {
    type V = Seq<ValueModel>;

    open spec fn view(&self) -> Seq<ValueModel> {
        value_views(self.values@)
    }
}

/// The macro tables, with the count that the buffer declares.
#[derive(Debug, Clone)]
pub struct Macros<'a> {
    pub count: usize,
    pub tables: Vec<Table<'a>>,
}

impl<'a> View for Macros<'a> {
    type V = Seq<Seq<ValueModel>>;

    open spec fn view(&self) -> Seq<Seq<ValueModel>> {
        table_views(self.tables@)
    }
}

/// Each group of `groups` as plain values, in order.
pub open spec fn group_views(groups: Seq<Vec<Name>>) -> Seq<Seq<NameModel>> {
    Seq::new(groups.len(), |i: int| name_views(groups[i]@))
}

/// Each value of `values` as a plain value, in order.
pub open spec fn value_views(values: Seq<Value>) -> Seq<ValueModel> {
    Seq::new(values.len(), |i: int| values[i]@)
}

/// Each table of `tables` as plain values, in order.
pub open spec fn table_views(tables: Seq<Table>) -> Seq<Seq<ValueModel>> {
    Seq::new(tables.len(), |i: int| tables[i]@)
}

/// What resolving one entry of a list of pages gives, `page` being the
/// offset of a page record: the names of that page, found through the first
/// number of its record.
pub open spec fn group_at(bytes: Seq<u8>, page: int) -> Result<Seq<NameModel>, ParseError> {
    match num_at(bytes, page) {
        Err(e) => Err(e),
        Ok(names) => names_at(bytes, names as int),
    }
}

/// What walking the list of pages at `list` gives from its entry `p` on. A
/// zero ends the list, and so does entry number `PAGE_LIST_CAP`, which is
/// never read. Any other entry is resolved as `group_at` says.
pub open spec fn groups_at(bytes: Seq<u8>, list: int, p: nat) -> Result<
    Seq<Seq<NameModel>>,
    ParseError,
>
    decreases PAGE_LIST_CAP - p,
{
    if p >= PAGE_LIST_CAP {
        Ok(Seq::empty())
    } else {
        match num_at(bytes, list + 4 * p) {
            Err(e) => Err(e),
            Ok(page) => if page == 0 {
                Ok(Seq::empty())
            } else {
                match group_at(bytes, page as int) {
                    Err(e) => Err(e),
                    Ok(names) => followed_by(seq![names], groups_at(bytes, list, p + 1)),
                }
            },
        }
    }
}

/// What reading the value whose header starts at `start` gives: the string
/// is read first, then the list of pages.
pub open spec fn value_at(bytes: Seq<u8>, start: int) -> Result<ValueModel, ParseError> {
    match num_at(bytes, start) {
        Err(e) => Err(e),
        Ok(text_start) => match text_at(bytes, text_start as int) {
            Err(e) => Err(e),
            Ok(text) => match num_at(bytes, start + 4) {
                Err(e) => Err(e),
                Ok(list) => match groups_at(bytes, list as int, 0) {
                    Err(e) => Err(e),
                    Ok(page_names) => Ok(ValueModel { text, page_names }),
                },
            },
        },
    }
}

/// What reading `n` values gives, the header of the first at `first`.
pub open spec fn value_run(bytes: Seq<u8>, first: int, n: nat) -> Result<
    Seq<ValueModel>,
    ParseError,
> {
    run_of(|i: int| value_at(bytes, first + VALUE_HEADER_SIZE * i), n)
}

/// What reading the macro table at `start` gives: as many values as the
/// number at `start` declares, their headers right behind it.
pub open spec fn table_at(bytes: Seq<u8>, start: int) -> Result<Seq<ValueModel>, ParseError> {
    match num_at(bytes, start) {
        Err(e) => Err(e),
        Ok(count) => value_run(bytes, start + 4, count as nat),
    }
}

/// What reading the table of index `i` gives, the table offsets standing
/// from `first` on.
pub open spec fn table_entry_at(bytes: Seq<u8>, first: int, i: int) -> Result<
    Seq<ValueModel>,
    ParseError,
> {
    match num_at(bytes, first + 4 * i) {
        Err(e) => Err(e),
        Ok(table) => table_at(bytes, table as int),
    }
}

/// What reading `n` macro tables gives, their offsets standing from `first` on.
pub open spec fn table_run(bytes: Seq<u8>, first: int, n: nat) -> Result<
    Seq<Seq<ValueModel>>,
    ParseError,
> {
    run_of(|i: int| table_entry_at(bytes, first, i), n)
}

/// What reading the macros collection at `start` gives. As many tables as
/// the number at `start` declares are read, their offsets right behind it.
/// When all of them could be read, the declared number has to be
/// `MACRO_TABLE_COUNT`.
pub open spec fn macros_at(bytes: Seq<u8>, start: int) -> Result<Seq<Seq<ValueModel>>, ParseError> {
    match num_at(bytes, start) {
        Err(e) => Err(e),
        Ok(count) => match table_run(bytes, start + 4, count as nat) {
            Err(e) => Err(e),
            Ok(tables) => if count != MACRO_TABLE_COUNT {
                Err(ParseError::CountMismatch { expected: MACRO_TABLE_COUNT, actual: count })
            } else {
                Ok(tables)
            },
        },
    }
}

/// The outcome of walking a list of pages, as plain values.
pub open spec fn groups_outcome(r: Result<Vec<Vec<Name>>, ParseError>) -> Result<
    Seq<Seq<NameModel>>,
    ParseError,
> {
    match r {
        Ok(groups) => Ok(group_views(groups@)),
        Err(e) => Err(e),
    }
}

/// The outcome of reading a value, as a plain value.
pub open spec fn value_outcome(r: Result<Value, ParseError>) -> Result<ValueModel, ParseError> {
    match r {
        Ok(value) => Ok(value@),
        Err(e) => Err(e),
    }
}

/// The outcome of reading a macro table, as plain values.
pub open spec fn table_outcome(r: Result<Table, ParseError>) -> Result<
    Seq<ValueModel>,
    ParseError,
> {
    match r {
        Ok(table) => Ok(table@),
        Err(e) => Err(e),
    }
}

/// The outcome of reading the macros collection, as plain values.
pub open spec fn macros_outcome(r: Result<Macros, ParseError>) -> Result<
    Seq<Seq<ValueModel>>,
    ParseError,
> {
    match r {
        Ok(macros) => Ok(macros@),
        Err(e) => Err(e),
    }
}

impl<'a> Value<'a> {
    /// Whether the value is as a decoded value is: it names no more pages
    /// than a list of pages can hold, and every name carries a source byte
    /// that is in range.
    pub open spec fn wf(&self) -> bool {
        &&& self.page_names@.len() <= PAGE_LIST_CAP
        &&& forall|i: int|
            0 <= i < self.page_names@.len() ==> sources_in_range(
                name_views(#[trigger] self.page_names@[i]@),
            )
    }

    /// Walks the list of pages at `list` and reads the names of each page
    /// in it, up to the closing zero or the end of entry `PAGE_LIST_CAP - 1`.
    pub fn parse_page_names(bytes: &'a [u8], list: usize) -> (r: Result<
        Vec<Vec<Name<'a>>>,
        ParseError,
    >)
        ensures
            groups_outcome(r) == groups_at(bytes@, list as int, 0),
            r matches Ok(groups) ==> groups@.len() <= PAGE_LIST_CAP && forall|i: int|
                0 <= i < groups@.len() ==> sources_in_range(name_views(#[trigger] groups@[i]@)),
    {
        let len: usize = bytes.len();
        let mut groups: Vec<Vec<Name<'a>>> = Vec::new();
        let mut p: usize = 0;
        assert(group_views(groups@) =~= Seq::<Seq<NameModel>>::empty());
        while p < PAGE_LIST_CAP
            invariant
                p <= PAGE_LIST_CAP,
                len == bytes@.len(),
                p == 0 || list + 4 * p <= len,
                groups@.len() == p,
                groups_at(bytes@, list as int, 0) == followed_by(
                    group_views(groups@),
                    groups_at(bytes@, list as int, p as nat),
                ),
                forall|i: int|
                    0 <= i < groups@.len() ==> sources_in_range(
                        name_views(#[trigger] groups@[i]@),
                    ),
            decreases PAGE_LIST_CAP - p,
        {
            let ghost before = group_views(groups@);
            let page: usize = parse_num(bytes, list + 4 * p)?;
            if page == 0 {
                assert(before + Seq::<Seq<NameModel>>::empty() =~= before);
                return Ok(groups);
            }
            let names_start: usize = parse_num(bytes, page)?;
            let names = Name::parse_names(bytes, names_start)?;
            proof {
                let group = name_views(names@);
                let rest = groups_at(bytes@, list as int, (p + 1) as nat);
                assert(groups_at(bytes@, list as int, p as nat) == followed_by(seq![group], rest));
                assert(group_views(groups@.push(names)) =~= before.push(group));
                assert(rest matches Ok(more) ==> before + (seq![group] + more) =~= before.push(
                    group,
                ) + more);
            }
            groups.push(names);
            p = p + 1;
        }
        assert(group_views(groups@) + Seq::<Seq<NameModel>>::empty() =~= group_views(groups@));
        Ok(groups)
    }

    /// Reads the value whose header starts at `start`.
    pub fn parse(bytes: &'a [u8], start: usize) -> (r: Result<Value<'a>, ParseError>)
        ensures
            value_outcome(r) == value_at(bytes@, start as int),
            r matches Ok(value) ==> value.wf() && start + VALUE_HEADER_SIZE <= bytes@.len(),
    {
        let str_start: usize = parse_num(bytes, start)?;
        let str = parse_str(bytes, str_start)?;
        let list: usize = parse_num(bytes, start + 4)?;
        let page_names = Value::parse_page_names(bytes, list)?;
        Ok(Value { str, page_names })
    }
}

impl<'a> Table<'a> {
    /// Whether the table is as a decoded table is: it holds as many values
    /// as it declares, each of them well-formed.
    pub open spec fn wf(&self) -> bool {
        &&& self.count == self.values@.len()
        &&& forall|i: int| 0 <= i < self.values@.len() ==> (#[trigger] self.values@[i]).wf()
    }

    /// Reads the macro table that starts at `start`.
    pub fn parse(bytes: &'a [u8], start: usize) -> (r: Result<Table<'a>, ParseError>)
        ensures
            table_outcome(r) == table_at(bytes@, start as int),
            r matches Ok(table) ==> table.wf() && num_at(bytes@, start as int) == Ok::<
                usize,
                ParseError,
            >(table.count),
    {
        let len: usize = bytes.len();
        let count: usize = parse_num(bytes, start)?;
        let first: usize = start + 4;
        let mut values: Vec<Value<'a>> = Vec::new();
        let mut i: usize = 0;
        assert(value_views(values@) =~= Seq::<ValueModel>::empty());
        while i < count
            invariant
                i <= count,
                len == bytes@.len(),
                first == start + 4,
                first + VALUE_HEADER_SIZE * i <= len,
                values@.len() == i,
                num_at(bytes@, start as int) == Ok::<usize, ParseError>(count),
                value_run(bytes@, first as int, i as nat) == Ok::<Seq<ValueModel>, ParseError>(
                    value_views(values@),
                ),
                forall|k: int| 0 <= k < values@.len() ==> (#[trigger] values@[k]).wf(),
            decreases count - i,
        {
            let ghost before = value_views(values@);
            let value = match Value::parse(bytes, first + VALUE_HEADER_SIZE * i) {
                Ok(value) => value,
                Err(e) => {
                    proof {
                        lemma_run_of_fails(
                            |k: int| value_at(bytes@, first + VALUE_HEADER_SIZE * k),
                            i as nat,
                            count as nat,
                        );
                    }
                    return Err(e);
                },
            };
            proof {
                assert(value_views(values@.push(value)) =~= before.push(value@));
            }
            values.push(value);
            i = i + 1;
        }
        Ok(Table { count, values })
    }
}

impl<'a> Macros<'a> {
    /// Whether the collection is as a decoded collection is: it declares
    /// and holds `MACRO_TABLE_COUNT` tables, each of them well-formed.
    pub open spec fn wf(&self) -> bool {
        &&& self.count == MACRO_TABLE_COUNT
        &&& self.tables@.len() == MACRO_TABLE_COUNT
        &&& forall|i: int| 0 <= i < self.tables@.len() ==> (#[trigger] self.tables@[i]).wf()
    }

    /// Reads the macros collection that starts at `start`.
    pub fn parse(bytes: &'a [u8], start: usize) -> (r: Result<Macros<'a>, ParseError>)
        ensures
            macros_outcome(r) == macros_at(bytes@, start as int),
            r matches Ok(macros) ==> macros.wf(),
    {
        let len: usize = bytes.len();
        let count: usize = parse_num(bytes, start)?;
        let first: usize = start + 4;
        let mut tables: Vec<Table<'a>> = Vec::new();
        let mut i: usize = 0;
        assert(table_views(tables@) =~= Seq::<Seq<ValueModel>>::empty());
        while i < count
            invariant
                i <= count,
                len == bytes@.len(),
                first == start + 4,
                first + 4 * i <= len,
                tables@.len() == i,
                num_at(bytes@, start as int) == Ok::<usize, ParseError>(count),
                table_run(bytes@, first as int, i as nat) == Ok::<Seq<Seq<ValueModel>>, ParseError>(
                    table_views(tables@),
                ),
                forall|k: int| 0 <= k < tables@.len() ==> (#[trigger] tables@[k]).wf(),
            decreases count - i,
        {
            let ghost before = table_views(tables@);
            let ghost entry = |k: int| table_entry_at(bytes@, first as int, k);
            let table_start: usize = match parse_num(bytes, first + 4 * i) {
                Ok(n) => n,
                Err(e) => {
                    proof {
                        lemma_run_of_fails(entry, i as nat, count as nat);
                    }
                    return Err(e);
                },
            };
            let table = match Table::parse(bytes, table_start) {
                Ok(table) => table,
                Err(e) => {
                    proof {
                        lemma_run_of_fails(entry, i as nat, count as nat);
                    }
                    return Err(e);
                },
            };
            proof {
                assert(table_views(tables@.push(table)) =~= before.push(table@));
            }
            tables.push(table);
            i = i + 1;
        }
        if count != MACRO_TABLE_COUNT {
            return Err(ParseError::CountMismatch { expected: MACRO_TABLE_COUNT, actual: count });
        }
        Ok(Macros { count, tables })
    }
}

} // verus!
