use mandoc_db::error::ParseError;
use mandoc_db::pages::{Name, Page, PageFormat, Pages};

fn put_num(buf: &mut Vec<u8>, at: usize, n: u32) {
    buf[at..at + 4].copy_from_slice(&n.to_be_bytes());
}

/// A buffer with one page record at offset 20 and its parts behind it.
/// `archs` of `None` leaves the architectures offset at zero.
fn one_page(names: &[u8], sects: &[u8], archs: Option<&[u8]>, desc: &[u8], files: &[u8]) -> Vec<u8> {
    let mut buf = vec![0u8; 40];
    put_num(&mut buf, 16, 1);
    let at = buf.len() as u32;
    put_num(&mut buf, 20, at);
    buf.extend_from_slice(names);
    let at = buf.len() as u32;
    put_num(&mut buf, 24, at);
    buf.extend_from_slice(sects);
    if let Some(archs) = archs {
        let at = buf.len() as u32;
        put_num(&mut buf, 28, at);
        buf.extend_from_slice(archs);
    }
    let at = buf.len() as u32;
    put_num(&mut buf, 32, at);
    buf.extend_from_slice(desc);
    let at = buf.len() as u32;
    put_num(&mut buf, 36, at);
    buf.extend_from_slice(files);
    buf
}

fn texts_of<'a>(names: &[Name<'a>]) -> Vec<(&'a str, u8)> {
    names.iter().map(|n| (n.value, n.source)).collect()
}

#[test]
fn from_tag_knows_two_formats() {
    assert_eq!(PageFormat::from_tag(1), Some(PageFormat::MdocMan));
    assert_eq!(PageFormat::from_tag(2), Some(PageFormat::Preformatted));
    assert_eq!(PageFormat::from_tag(0), None);
    assert_eq!(PageFormat::from_tag(3), None);
    assert_eq!(PageFormat::from_tag(255), None);
    for tag in 3..=255u8 {
        assert_eq!(PageFormat::from_tag(tag), None);
    }
}

#[test]
fn parse_names_keeps_source_bytes() {
    let bytes = b"\x01ls\0\x1fdir\0\x10vdir\0\0";
    let names = Name::parse_names(bytes, 0).unwrap();
    assert_eq!(texts_of(&names), vec![("ls", 1), ("dir", 31), ("vdir", 16)]);
}

#[test]
fn parse_names_keeps_every_source_in_range() {
    for source in 1..=31u8 {
        let bytes = [source, b'x', 0, 0];
        let names = Name::parse_names(&bytes, 0).unwrap();
        assert_eq!(texts_of(&names), vec![("x", source)]);
    }
}

#[test]
fn parse_names_refuses_source_out_of_range() {
    for source in 32..=255u8 {
        let bytes = [source, b'x', 0, 0];
        assert_eq!(
            Name::parse_names(&bytes, 0).err(),
            Some(ParseError::MalformedList { offset: 0 })
        );
    }
    let bytes = b"\x01ls\0\x20dir\0\0";
    assert_eq!(Name::parse_names(bytes, 0).err(), Some(ParseError::MalformedList { offset: 4 }));
}

#[test]
fn parse_names_of_lone_nul_is_empty() {
    let bytes = b"\0\x01ls\0\0";
    assert_eq!(Name::parse_names(bytes, 0).unwrap().len(), 0);
    assert_eq!(Name::parse_names(bytes, 5).unwrap().len(), 0);
}

#[test]
fn parse_names_takes_empty_text() {
    let bytes = b"\x08\0\x01a\0\0";
    let names = Name::parse_names(bytes, 0).unwrap();
    assert_eq!(texts_of(&names), vec![("", 8), ("a", 1)]);
}

#[test]
fn parse_names_refuses_missing_terminator() {
    let bytes = b"\x01ls\0";
    assert_eq!(Name::parse_names(bytes, 0).err(), Some(ParseError::OutOfBounds { offset: 4 }));
    let bytes = b"\x01ls";
    assert_eq!(Name::parse_names(bytes, 0).err(), Some(ParseError::OutOfBounds { offset: 1 }));
    let bytes = b"\x01";
    assert_eq!(Name::parse_names(bytes, 0).err(), Some(ParseError::OutOfBounds { offset: 1 }));
    assert_eq!(Name::parse_names(bytes, 1).err(), Some(ParseError::OutOfBounds { offset: 1 }));
}

#[test]
fn parse_names_refuses_bad_utf8() {
    let bytes = [1, b'a', 0, 2, 0xff, 0, 0];
    assert_eq!(Name::parse_names(&bytes, 0).err(), Some(ParseError::InvalidUtf8 { offset: 4 }));
}

#[test]
fn parse_names_checks_source_before_text() {
    let bytes = [0x40, 0xff];
    assert_eq!(Name::parse_names(&bytes, 0).err(), Some(ParseError::MalformedList { offset: 0 }));
}

#[test]
fn page_parse_reads_every_part() {
    let buf = one_page(
        b"\x1fls\0\x10dir\0\0",
        b"1\0\0",
        Some(b"amd64\0i386\0\0"),
        b"list directory contents\0",
        b"\x01man1/ls.1\0man1/dir.1\0\0",
    );
    let page = Page::parse(&buf, 20).unwrap();
    assert_eq!(texts_of(&page.names), vec![("ls", 31), ("dir", 16)]);
    assert_eq!(page.sects, vec!["1"]);
    assert_eq!(page.archs, Some(vec!["amd64", "i386"]));
    assert_eq!(page.desc, "list directory contents");
    assert_eq!(page.files, vec!["man1/ls.1", "man1/dir.1"]);
    assert_eq!(page.format, PageFormat::MdocMan);
    assert_eq!(texts_of(page.names()), vec![("ls", 31), ("dir", 16)]);
    assert_eq!(page.sections(), &vec!["1"]);
    assert_eq!(page.architectures(), Some(&vec!["amd64", "i386"]));
    assert_eq!(page.description(), "list directory contents");
    assert_eq!(page.files(), &vec!["man1/ls.1", "man1/dir.1"]);
    assert_eq!(page.format(), PageFormat::MdocMan);
}

#[test]
fn page_archs_absent_when_offset_is_zero() {
    let buf = one_page(b"\x01a\0\0", b"1\0\0", None, b"d\0", b"\x01f\0\0");
    let page = Page::parse(&buf, 20).unwrap();
    assert_eq!(page.archs, None);
    assert_eq!(page.architectures(), None);
}

#[test]
fn page_archs_present_but_empty_differs_from_absent() {
    let buf = one_page(b"\x01a\0\0", b"1\0\0", Some(b"\0"), b"d\0", b"\x01f\0\0");
    let page = Page::parse(&buf, 20).unwrap();
    assert_eq!(page.archs, Some(vec![]));
}

#[test]
fn page_format_follows_tag() {
    let buf = one_page(b"\x01a\0\0", b"1\0\0", None, b"d\0", b"\x02f\0\0");
    assert_eq!(Page::parse(&buf, 20).unwrap().format, PageFormat::Preformatted);
    let buf = one_page(b"\x01a\0\0", b"1\0\0", None, b"d\0", b"\x01f\0\0");
    assert_eq!(Page::parse(&buf, 20).unwrap().format, PageFormat::MdocMan);
}

#[test]
fn page_refuses_unknown_format_tag() {
    for tag in [0u8, 3, 4, 0x7f, 0xff] {
        let files = [tag, b'f', 0, 0];
        let buf = one_page(b"\x01a\0\0", b"1\0\0", None, b"d\0", &files);
        let at = buf.len() - 4;
        assert_eq!(
            Page::parse(&buf, 20).err(),
            Some(ParseError::UnknownFormatTag { offset: at, tag })
        );
    }
}

#[test]
fn page_files_exclude_tag_byte() {
    let buf = one_page(b"\x01a\0\0", b"1\0\0", None, b"d\0", b"\x01\0");
    let page = Page::parse(&buf, 20).unwrap();
    assert_eq!(page.files.len(), 0);
    assert_eq!(page.format, PageFormat::MdocMan);
}

#[test]
fn page_refuses_record_past_end() {
    let buf = one_page(b"\x01a\0\0", b"1\0\0", None, b"d\0", b"\x01f\0\0");
    let len = buf.len();
    assert_eq!(Page::parse(&buf, len - 19).err(), Some(ParseError::OutOfBounds { offset: len - 19 }));
    assert_eq!(Page::parse(&buf, len).err(), Some(ParseError::OutOfBounds { offset: len }));
    assert_eq!(
        Page::parse(&buf, usize::MAX).err(),
        Some(ParseError::OutOfBounds { offset: usize::MAX })
    );
    assert_eq!(Page::parse(&buf[..39], 20).err(), Some(ParseError::OutOfBounds { offset: 20 }));
}

#[test]
fn page_refuses_part_offset_past_end() {
    let mut buf = one_page(b"\x01a\0\0", b"1\0\0", None, b"d\0", b"\x01f\0\0");
    let len = buf.len();
    put_num(&mut buf, 36, len as u32);
    assert_eq!(Page::parse(&buf, 20).err(), Some(ParseError::OutOfBounds { offset: len }));
    put_num(&mut buf, 36, (len - 1) as u32);
    assert_eq!(
        Page::parse(&buf, 20).err(),
        Some(ParseError::UnknownFormatTag { offset: len - 1, tag: 0 })
    );
    put_num(&mut buf, 20, 0xffff_ffff);
    assert_eq!(Page::parse(&buf, 20).err(), Some(ParseError::OutOfBounds { offset: 0xffff_ffff }));
}

#[test]
fn page_gives_first_bad_part() {
    let mut buf = one_page(b"\x01a\0\0", b"1\0\0", None, b"d\0", b"\x09f\0\0");
    let len = buf.len() as u32;
    put_num(&mut buf, 32, len);
    assert_eq!(
        Page::parse(&buf, 20).err(),
        Some(ParseError::OutOfBounds { offset: len as usize })
    );
    put_num(&mut buf, 20, 0xffff_ff00);
    assert_eq!(Page::parse(&buf, 20).err(), Some(ParseError::OutOfBounds { offset: 0xffff_ff00 }));
}

#[test]
fn pages_parse_reads_declared_count() {
    let mut buf = vec![0u8; 20];
    put_num(&mut buf, 16, 2);
    buf.extend_from_slice(&[0u8; 40]);
    let names_a = buf.len() as u32;
    buf.extend_from_slice(b"\x01alpha\0\0");
    let names_b = buf.len() as u32;
    buf.extend_from_slice(b"\x02beta\0\0");
    let sects = buf.len() as u32;
    buf.extend_from_slice(b"3\0\0");
    let desc = buf.len() as u32;
    buf.extend_from_slice(b"text\0");
    let files = buf.len() as u32;
    buf.extend_from_slice(b"\x02cat3/x.0\0\0");
    for (record, names) in [(20, names_a), (40, names_b)] {
        put_num(&mut buf, record, names);
        put_num(&mut buf, record + 4, sects);
        put_num(&mut buf, record + 8, if record == 20 { 0 } else { sects });
        put_num(&mut buf, record + 12, desc);
        put_num(&mut buf, record + 16, files);
    }
    let pages = Pages::parse(&buf).unwrap();
    assert_eq!(pages.count, 2);
    assert_eq!(pages.table.len(), 2);
    assert_eq!(texts_of(&pages.table[0].names), vec![("alpha", 1)]);
    assert_eq!(texts_of(&pages.table[1].names), vec![("beta", 2)]);
    assert_eq!(pages.table[0].archs, None);
    assert_eq!(pages.table[1].archs, Some(vec!["3"]));
    assert_eq!(pages.table[1].format, PageFormat::Preformatted);
}

#[test]
fn pages_parse_of_zero_count_is_empty() {
    let buf = vec![0u8; 20];
    let pages = Pages::parse(&buf).unwrap();
    assert_eq!(pages.count, 0);
    assert_eq!(pages.table.len(), 0);
}

#[test]
fn pages_parse_refuses_count_beyond_buffer() {
    let mut buf = one_page(b"\x01a\0\0", b"1\0\0", None, b"d\0", b"\x01f\0\0");
    put_num(&mut buf, 16, 2);
    assert_eq!(buf.len(), 40 + 4 + 3 + 2 + 4);
    assert_eq!(Pages::parse(&buf).err(), Some(ParseError::OutOfBounds { offset: 40 }));
    put_num(&mut buf, 16, 0xffff_ffff);
    assert_eq!(Pages::parse(&buf).err(), Some(ParseError::OutOfBounds { offset: 40 }));
}

#[test]
fn pages_parse_refuses_missing_count() {
    assert_eq!(Pages::parse(&[0u8; 19]).err(), Some(ParseError::OutOfBounds { offset: 16 }));
    assert_eq!(Pages::parse(&[]).err(), Some(ParseError::OutOfBounds { offset: 16 }));
}
