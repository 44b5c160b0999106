//! The primitive readers: numbers, single strings and string lists.
//!
//! Text is modelled by its bytes: a decoded string is a run of the buffer
//! that ends just before a NUL and is valid UTF-8.

use vstd::prelude::*;
use vstd::string::StringSliceAdditionalSpecFns;
use vstd::slice::slice_subrange;
use vstd::utf8::valid_utf8;
use vstd::utf8::decode_utf8;
use vstd::utf8::encode_utf8_decode_utf8;
use crate::error::ParseError;

verus! {

/// `core::str::Utf8Error`, the error of `core::str::from_utf8`, carried
/// through without looking inside.
#[verifier::external_type_specification]
#[verifier::external_body]
pub struct ExUtf8Error(core::str::Utf8Error);

/// `core::str::from_utf8` succeeds exactly on the byte strings that are
/// well-formed UTF-8, and the string slice it then returns is made of the
/// very bytes it was given.
pub assume_specification<'a>[ core::str::from_utf8 ](v: &'a [u8]) -> (r: Result<
    &'a str,
    core::str::Utf8Error,
>)
    ensures
        r is Ok <==> valid_utf8(v@),
        r matches Ok(s) ==> s.spec_bytes() == v@,
;

/// The number that the four bytes from `idx` on spell, most significant first.
pub open spec fn be_u32(bytes: Seq<u8>, idx: int) -> int {
    bytes[idx] * 0x100_0000 + bytes[idx + 1] * 0x1_0000 + bytes[idx + 2] * 0x100 + bytes[idx + 3]
}

/// What reading a number at `idx` gives: the big-endian value of the four
/// bytes there, or `OutOfBounds` when they do not all lie inside the buffer.
pub open spec fn num_at(bytes: Seq<u8>, idx: int) -> Result<usize, ParseError> {
    if 0 <= idx && idx + 3 < bytes.len() {
        Ok(be_u32(bytes, idx) as usize)
    } else {
        Err(ParseError::OutOfBounds { offset: idx as usize })
    }
}

/// The place of the first NUL at or after `from`; the length of the buffer
/// when there is none. A `from` outside the buffer is returned as it is.
pub open spec fn nul_from(bytes: Seq<u8>, from: int) -> int
    decreases bytes.len() - from,
{
    if 0 <= from < bytes.len() && bytes[from] != 0 {
        nul_from(bytes, from + 1)
    } else {
        from
    }
}

/// What reading one string at `start` gives: the bytes from `start` up to
/// the first NUL. The NUL has to be there, and the bytes have to be UTF-8.
pub open spec fn text_at(bytes: Seq<u8>, start: int) -> Result<Seq<u8>, ParseError> {
    let end = nul_from(bytes, start);
    if start < 0 || end >= bytes.len() {
        Err(ParseError::OutOfBounds { offset: start as usize })
    } else if !valid_utf8(bytes.subrange(start, end)) {
        Err(ParseError::InvalidUtf8 { offset: start as usize })
    } else {
        Ok(bytes.subrange(start, end))
    }
}

/// What reading a string list at `start` gives. A NUL where a string would
/// begin ends the list; any other byte begins a string, which is read as
/// `text_at` reads one, and the list goes on behind its NUL. The first
/// string that cannot be read decides the error.
pub open spec fn list_at(bytes: Seq<u8>, start: int) -> Result<Seq<Seq<u8>>, ParseError>
    decreases bytes.len() - start,
{
    if start < 0 || start >= bytes.len() {
        Err(ParseError::OutOfBounds { offset: start as usize })
    } else if bytes[start] == 0 {
        Ok(Seq::empty())
    } else {
        match text_at(bytes, start) {
            Err(e) => Err(e),
            Ok(text) => {
                proof {
                    lemma_nul_from(bytes, start);
                }
                followed_by(seq![text], list_at(bytes, nul_from(bytes, start) + 1))
            },
        }
    }
}

/// `head` in front of what `tail` decoded to; the failure of `tail`, if it failed.
pub open spec fn followed_by<T>(head: Seq<T>, tail: Result<Seq<T>, ParseError>) -> Result<
    Seq<T>,
    ParseError,
> {
    match tail {
        Ok(rest) => Ok(head + rest),
        Err(e) => Err(e),
    }
}

/// What reading `n` items one after the other gives, `item(i)` being what
/// reading the item of index `i` gives: the items in order, or the error of
/// the first one that cannot be read.
pub open spec fn run_of<T>(item: spec_fn(int) -> Result<T, ParseError>, n: nat) -> Result<
    Seq<T>,
    ParseError,
>
    decreases n,
{
    if n == 0 {
        Ok(Seq::empty())
    } else {
        match run_of(item, (n - 1) as nat) {
            Err(e) => Err(e),
            Ok(items) => match item(n - 1) {
                Err(e) => Err(e),
                Ok(last) => Ok(items.push(last)),
            },
        }
    }
}

/// `byte` with an ASCII capital letter turned into its small letter.
pub open spec fn ascii_lower(byte: u8) -> u8 {
    if 0x41 <= byte <= 0x5a {
        (byte + 0x20) as u8
    } else {
        byte
    }
}

/// Whether two texts are the same but for the case of their ASCII letters:
/// they are as long as each other, and byte for byte equal once capital
/// letters are turned into small ones.
pub open spec fn same_ignoring_case(a: Seq<u8>, b: Seq<u8>) -> bool {
    &&& a.len() == b.len()
    &&& forall|i: int| 0 <= i < a.len() ==> ascii_lower(#[trigger] a[i]) == ascii_lower(b[i])
}

/// The bytes of each string of `list`, in order.
pub open spec fn texts(list: Seq<&str>) -> Seq<Seq<u8>> {
    Seq::new(list.len(), |i: int| list[i].spec_bytes())
}

/// The outcome of reading one string, with the string taken by its bytes.
pub open spec fn text_outcome(r: Result<&str, ParseError>) -> Result<Seq<u8>, ParseError> {
    match r {
        Ok(s) => Ok(s.spec_bytes()),
        Err(e) => Err(e),
    }
}

/// The outcome of reading a string list, with each string taken by its bytes.
pub open spec fn list_outcome(r: Result<Vec<&str>, ParseError>) -> Result<
    Seq<Seq<u8>>,
    ParseError,
> {
    match r {
        Ok(list) => Ok(texts(list@)),
        Err(e) => Err(e),
    }
}

/// `nul_from` finds the least place at or after `from` that holds a NUL.
pub proof fn lemma_nul_from(bytes: Seq<u8>, from: int)
    requires
        0 <= from <= bytes.len(),
    ensures
        from <= nul_from(bytes, from) <= bytes.len(),
        forall|k: int| from <= k < nul_from(bytes, from) ==> bytes[k] != 0,
        nul_from(bytes, from) < bytes.len() ==> bytes[nul_from(bytes, from)] == 0,
    decreases bytes.len() - from,
{
    if from < bytes.len() && bytes[from] != 0 {
        lemma_nul_from(bytes, from + 1);
    }
}

/// A place that holds a NUL, with no NUL between `from` and it, is what
/// `nul_from` finds.
pub proof fn lemma_nul_from_is(bytes: Seq<u8>, from: int, end: int)
    requires
        0 <= from <= end < bytes.len(),
        bytes[end] == 0,
        forall|k: int| from <= k < end ==> bytes[k] != 0,
    ensures
        nul_from(bytes, from) == end,
    decreases end - from,
{
    if from < end {
        lemma_nul_from_is(bytes, from + 1, end);
    }
}

/// A run that can be read holds as many items as were asked for, each of
/// them what reading it alone gives; and every shorter run can be read too.
pub proof fn lemma_run_of_ok<T>(item: spec_fn(int) -> Result<T, ParseError>, n: nat)
    requires
        run_of(item, n) is Ok,
    ensures
        run_of(item, n)->Ok_0.len() == n,
        forall|i: int| 0 <= i < n ==> item(i) == Ok::<T, ParseError>(run_of(item, n)->Ok_0[i]),
        forall|m: nat| m <= n ==> (#[trigger] run_of(item, m)) is Ok,
    decreases n,
{
    if n > 0 {
        lemma_run_of_ok(item, (n - 1) as nat);
    }
}

/// Once the item behind `n` good ones cannot be read, no longer run can be
/// read either, and it fails in the same way.
pub proof fn lemma_run_of_fails<T>(item: spec_fn(int) -> Result<T, ParseError>, n: nat, m: nat)
    requires
        n < m,
        run_of(item, n) is Ok,
        item(n as int) is Err,
    ensures
        run_of(item, m) == Err::<Seq<T>, ParseError>(item(n as int)->Err_0),
    decreases m,
{
    if m > n + 1 {
        lemma_run_of_fails(item, n, (m - 1) as nat);
    }
}

/// Reads the big-endian 32-bit number at `idx`.
pub fn parse_num(bytes: &[u8], idx: usize) -> (r: Result<usize, ParseError>)
    ensures
        r == num_at(bytes@, idx as int),
        r matches Ok(n) ==> n == be_u32(bytes@, idx as int) && n <= u32::MAX && idx + 4
            <= bytes@.len() <= usize::MAX,
{
    let len: usize = bytes.len();
    if len < 4 || idx > len - 4 {
        return Err(ParseError::OutOfBounds { offset: idx });
    }
    let b0: usize = bytes[idx] as usize;
    let b1: usize = bytes[idx + 1] as usize;
    let b2: usize = bytes[idx + 2] as usize;
    let b3: usize = bytes[idx + 3] as usize;
    Ok(b0 * 0x100_0000 + b1 * 0x1_0000 + b2 * 0x100 + b3)
}

/// Finds the first NUL at or after `from`: its place, or the length of the
/// buffer when there is none. A `from` behind the end is returned as it is.
pub fn find_nul(bytes: &[u8], from: usize) -> (end: usize)
    ensures
        end == nul_from(bytes@, from as int),
        from <= end,
        from <= bytes@.len() ==> end <= bytes@.len(),
{
    let mut cur: usize = from;
    while cur < bytes.len() && bytes[cur] != 0
        invariant
            from <= cur,
            from <= bytes@.len() ==> cur <= bytes@.len(),
            nul_from(bytes@, from as int) == nul_from(bytes@, cur as int),
        decreases bytes@.len() - cur,
    {
        cur = cur + 1;
    }
    cur
}

/// Turns an ASCII capital letter into its small letter.
pub fn to_ascii_lower(byte: u8) -> (r: u8)
    ensures
        r == ascii_lower(byte),
{
    if 0x41 <= byte && byte <= 0x5a {
        byte + 0x20
    } else {
        byte
    }
}

/// Compares two strings without regard to the case of their ASCII letters.
pub fn eq_ignoring_case(a: &str, b: &str) -> (r: bool)
    ensures
        r == same_ignoring_case(a.spec_bytes(), b.spec_bytes()),
{
    let a_bytes = a.as_bytes();
    let b_bytes = b.as_bytes();
    if a_bytes.len() != b_bytes.len() {
        return false;
    }
    let mut i: usize = 0;
    while i < a_bytes.len()
        invariant
            i <= a_bytes@.len(),
            a_bytes@.len() == b_bytes@.len(),
            a_bytes@ == a.spec_bytes(),
            b_bytes@ == b.spec_bytes(),
            forall|k: int| 0 <= k < i ==> ascii_lower(#[trigger] a_bytes@[k]) == ascii_lower(b_bytes@[k]),
        decreases a_bytes@.len() - i,
    {
        if to_ascii_lower(a_bytes[i]) != to_ascii_lower(b_bytes[i]) {
            return false;
        }
        i = i + 1;
    }
    true
}

/// Reads the NUL-terminated string that starts at `start`.
///
/// The string borrows from `bytes`: its bytes are the bytes of the buffer
/// from `start` up to the NUL.
pub fn parse_str<'a>(bytes: &'a [u8], start: usize) -> (r: Result<&'a str, ParseError>)
    ensures
        text_outcome(r) == text_at(bytes@, start as int),
        r matches Ok(s) ==> s@ == decode_utf8(s.spec_bytes()) && start + s.spec_bytes().len()
            == nul_from(bytes@, start as int) < bytes@.len(),
{
    let end: usize = find_nul(bytes, start);
    if end >= bytes.len() {
        return Err(ParseError::OutOfBounds { offset: start });
    }
    match core::str::from_utf8(slice_subrange(bytes, start, end)) {
        Ok(s) => {
            proof {
                encode_utf8_decode_utf8(s@);
            }
            Ok(s)
        },
        Err(_) => Err(ParseError::InvalidUtf8 { offset: start }),
    }
}

/// Reads the string list that starts at `idx`: strings one behind the
/// other, closed by a NUL of its own.
pub fn parse_list<'a>(bytes: &'a [u8], idx: usize) -> (r: Result<Vec<&'a str>, ParseError>)
    ensures
        list_outcome(r) == list_at(bytes@, idx as int),
{
    let mut list: Vec<&'a str> = Vec::new();
    let mut cur: usize = idx;
    loop
        invariant
            list_at(bytes@, idx as int) == followed_by(texts(list@), list_at(bytes@, cur as int)),
        decreases bytes@.len() - cur,
    {
        if cur >= bytes.len() {
            return Err(ParseError::OutOfBounds { offset: cur });
        }
        if bytes[cur] == 0 {
            assert(texts(list@) + Seq::<Seq<u8>>::empty() =~= texts(list@));
            return Ok(list);
        }
        let ghost before = texts(list@);
        match parse_str(bytes, cur) {
            Err(e) => {
                return Err(e);
            },
            Ok(s) => {
                let end: usize = cur + s.len();
                proof {
                    let text = s.spec_bytes();
                    let rest = list_at(bytes@, end + 1);
                    assert(end == nul_from(bytes@, cur as int));
                    assert(list_at(bytes@, cur as int) == followed_by(seq![text], rest));
                    assert(texts(list@.push(s)) =~= before.push(text));
                    assert(rest matches Ok(more) ==> before + (seq![text] + more) =~= before.push(
                        text,
                    ) + more);
                }
                list.push(s);
                cur = end + 1;
            },
        }
    }
}

} // verus!
