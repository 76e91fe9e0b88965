use tar_parser::archive::{body_block_count, is_zero_block, read_block};
use tar_parser::error::{committed, opened, written};
use tar_parser::text::{field_to_number, find_nul, parse_octal, slice_to_str};
use tar_parser::{TarError, TarFileType, TarHeader, TextField, BLOCK_SIZE};

fn put(block: &mut [u8; 512], at: usize, bytes: &[u8]) {
    block[at..at + bytes.len()].copy_from_slice(bytes);
}

fn header_block(name: &str, size: u64, flag: u8) -> [u8; 512] {
    let mut block = [0u8; 512];
    put(&mut block, 0, name.as_bytes());
    put(&mut block, 100, b"0000644\0");
    put(&mut block, 108, b"0001750\0");
    put(&mut block, 116, b"0001750\0");
    put(&mut block, 124, format!("{:011o}\0", size).as_bytes());
    put(&mut block, 136, b"14371573042\0");
    put(&mut block, 148, b"        ");
    block[156] = flag;
    put(&mut block, 257, b"ustar\0");
    put(&mut block, 263, b"00");
    put(&mut block, 265, b"alice\0");
    put(&mut block, 297, b"staff\0");
    block
}

#[test]
fn block_size_is_512() {
    assert_eq!(BLOCK_SIZE, 512);
}

#[test]
fn find_nul_gives_the_first_one() {
    assert_eq!(find_nul(b"abc\0de\0"), Some(3));
    assert_eq!(find_nul(b"\0"), Some(0));
    assert_eq!(find_nul(b"abc"), None);
    assert_eq!(find_nul(b""), None);
}

#[test]
fn text_ends_at_the_first_nul() {
    assert_eq!(slice_to_str(b"abc\0def\0"), Some("abc"));
    assert_eq!(slice_to_str(b"\0abc"), Some(""));
}

#[test]
fn text_without_nul_is_refused() {
    assert_eq!(slice_to_str(b"abc"), None);
    assert_eq!(slice_to_str(b""), None);
}

#[test]
fn text_is_decoded_as_utf8() {
    let bytes = [0x67, 0x72, 0xc3, 0xbc, 0xc3, 0x9f, 0x65, 0x00, 0xff];
    assert_eq!(slice_to_str(&bytes), Some("gr\u{fc}\u{df}e"));
    let euro = [0xe2, 0x82, 0xac, 0x00];
    assert_eq!(slice_to_str(&euro), Some("\u{20ac}"));
}

#[test]
fn text_that_is_not_utf8_is_refused() {
    assert_eq!(slice_to_str(&[0x61, 0xff, 0x00]), None);
    assert_eq!(slice_to_str(&[0xc3, 0x00]), None);
    assert_eq!(slice_to_str(&[0xed, 0xa0, 0x80, 0x00]), None);
}

#[test]
fn bytes_after_the_nul_are_ignored() {
    assert_eq!(slice_to_str(&[0x61, 0x00, 0xff, 0xfe]), Some("a"));
}

#[test]
fn octal_digits_give_their_number() {
    assert_eq!(parse_octal(b"0"), Some(0));
    assert_eq!(parse_octal(b"7"), Some(7));
    assert_eq!(parse_octal(b"10"), Some(8));
    assert_eq!(parse_octal(b"777"), Some(511));
    assert_eq!(parse_octal(b"00000001000"), Some(512));
    assert_eq!(parse_octal(b"00000001001"), Some(513));
    assert_eq!(parse_octal(b"77777777777"), Some(8589934591));
}

#[test]
fn octal_number_may_fill_64_bits_and_no_more() {
    assert_eq!(parse_octal(b"1777777777777777777777"), Some(u64::MAX));
    assert_eq!(parse_octal(b"0001777777777777777777777"), Some(u64::MAX));
    assert_eq!(parse_octal(b"2000000000000000000000"), None);
    assert_eq!(parse_octal(b"7777777777777777777777"), None);
}

#[test]
fn what_is_no_octal_digit_is_refused() {
    assert_eq!(parse_octal(b""), None);
    assert_eq!(parse_octal(b"8"), None);
    assert_eq!(parse_octal(b"12a"), None);
    assert_eq!(parse_octal(b" 12"), None);
    assert_eq!(parse_octal(b"12 "), None);
    assert_eq!(parse_octal(b"+12"), None);
    assert_eq!(parse_octal(b"-12"), None);
    assert_eq!(parse_octal(&[0x31, 0x80]), None);
}

#[test]
fn number_field_ends_at_the_first_nul() {
    assert_eq!(field_to_number(b"00000000017\0"), Some(15));
    assert_eq!(field_to_number(b"17\0garbage!!"), Some(15));
    assert_eq!(field_to_number(b"000000000017"), None);
    assert_eq!(field_to_number(b"\000000000017"), None);
}

#[test]
fn header_gives_its_typed_fields() {
    let header = TarHeader::from_block(&header_block("./archive/small.txt", 1234, b'0'));
    assert_eq!(header.name(), Ok("./archive/small.txt"));
    assert_eq!(header.uname(), Ok("alice"));
    assert_eq!(header.gname(), Ok("staff"));
    assert_eq!(header.size(), Ok(1234));
    assert_eq!(header.typeflag(), Ok(TarFileType::RegularFile));
    assert_eq!(header.validate_magic(), Ok(()));
    let fields = header.casted_fields().unwrap();
    assert_eq!(fields.name, "./archive/small.txt");
    assert_eq!(fields.uname, "alice");
    assert_eq!(fields.gname, "staff");
    assert_eq!(fields.size, 1234);
    assert_eq!(fields.typeflag, TarFileType::RegularFile);
}

#[test]
fn header_reads_each_field_at_its_place() {
    let mut block = [0u8; 512];
    for (i, b) in block.iter_mut().enumerate() {
        *b = (i % 251) as u8 + 1;
    }
    block[99] = 0;
    block[135] = 0;
    block[296] = 0;
    block[328] = 0;
    for i in 124..135 {
        block[i] = b'0' + (i % 8) as u8;
    }
    let header = TarHeader::from_block(&block);
    assert_eq!(header.name().unwrap().as_bytes(), &block[0..99]);
    assert_eq!(header.uname().unwrap().as_bytes(), &block[265..296]);
    assert_eq!(header.gname().unwrap().as_bytes(), &block[297..328]);
    assert_eq!(header.size(), Ok(0o45670123456));
    let shown = format!("{:?}", header);
    let number = |at: usize| u64::from_be_bytes(block[at..at + 8].try_into().unwrap());
    assert!(shown.contains(&format!("mode: {},", number(100))));
    assert!(shown.contains(&format!("uid: {},", number(108))));
    assert!(shown.contains(&format!("gid: {},", number(116))));
    assert!(shown.contains(&format!("chksum: {},", number(148))));
    assert!(shown.contains(&format!("typeflag: {},", block[156])));
    assert!(shown.contains(&format!("devmajor: {},", number(329))));
    assert!(shown.contains(&format!("devminor: {},", number(337))));
    assert!(shown.contains(&format!("mtime: {:?},", &block[136..148])));
    assert!(shown.contains(&format!("linkname: {:?},", &block[157..257])));
    assert!(shown.contains(&format!("magic: {:?},", &block[257..263])));
    assert!(shown.contains(&format!("version: {:?},", &block[263..265])));
    assert!(shown.contains(&format!("prefix: {:?}", &block[345..500])));
}

#[test]
fn header_ignores_the_padding() {
    let mut a = header_block("a", 0, b'0');
    let b = a;
    for i in 500..512 {
        a[i] = 0xaa;
    }
    assert_eq!(TarHeader::from_block(&a), TarHeader::from_block(&b));
}

#[test]
fn big_endian_number_exact() {
    let mut block = header_block("a", 0, b'0');
    put(&mut block, 100, &[0x01, 0x02, 0x03, 0x04, 0x05, 0x06, 0x07, 0x08]);
    let shown = format!("{:?}", TarHeader::from_block(&block));
    assert!(shown.contains("mode: 72623859790382856,"));
}

#[test]
fn each_type_flag_has_its_kind() {
    let kinds = [
        (b'0', TarFileType::RegularFile),
        (0u8, TarFileType::RegularFile),
        (b'1', TarFileType::Link),
        (b'2', TarFileType::SymTypeReserved),
        (b'3', TarFileType::CharacterSpecial),
        (b'4', TarFileType::BlockSpecial),
        (b'5', TarFileType::Dir),
        (b'6', TarFileType::FifoSpecial),
        (b'7', TarFileType::ContTypeReserved),
        (b'x', TarFileType::XHDType),
        (b'g', TarFileType::XGLType),
    ];
    for (flag, kind) in kinds {
        let header = TarHeader::from_block(&header_block("a", 0, flag));
        assert_eq!(header.typeflag(), Ok(kind));
    }
}

#[test]
fn unknown_type_flag_is_refused() {
    for flag in [b'8', b'9', b'X', b'G', b'L', b' ', 1u8, 0xffu8] {
        let header = TarHeader::from_block(&header_block("a", 0, flag));
        assert_eq!(header.typeflag(), Err(TarError::InvalidTypeFlag));
        assert_eq!(header.casted_fields().err(), Some(TarError::InvalidTypeFlag));
    }
}

#[test]
fn both_spellings_of_the_magic_pass() {
    let mut block = header_block("a", 0, b'0');
    assert_eq!(TarHeader::from_block(&block).validate_magic(), Ok(()));
    put(&mut block, 257, b"ustar ");
    put(&mut block, 263, b" \0");
    assert_eq!(TarHeader::from_block(&block).validate_magic(), Ok(()));
}

#[test]
fn any_other_magic_is_refused() {
    for magic in [b"USTAR\0", b"ustar0", b"\0\0\0\0\0\0", b"ustax\0", b" ustar", b"xstar "] {
        let mut block = header_block("a", 0, b'0');
        put(&mut block, 257, magic);
        assert_eq!(TarHeader::from_block(&block).validate_magic(), Err(TarError::InvalidMagic));
    }
}

#[test]
fn name_that_fills_its_field_is_refused() {
    let mut block = header_block("a", 0, b'0');
    put(&mut block, 0, &[b'n'; 100]);
    let header = TarHeader::from_block(&block);
    assert_eq!(header.name(), Err(TarError::InvalidText(TextField::Name)));
    assert_eq!(header.casted_fields().err(), Some(TarError::InvalidText(TextField::Name)));
    block[99] = 0;
    let header = TarHeader::from_block(&block);
    assert_eq!(header.name().map(|s| s.len()), Ok(99));
}

#[test]
fn text_fields_that_are_not_utf8_are_refused() {
    let mut block = header_block("a", 0, b'0');
    block[265] = 0xff;
    let header = TarHeader::from_block(&block);
    assert_eq!(header.uname(), Err(TarError::InvalidText(TextField::Uname)));
    assert_eq!(header.casted_fields().err(), Some(TarError::InvalidText(TextField::Uname)));
    let mut block = header_block("a", 0, b'0');
    put(&mut block, 297, &[b'g'; 32]);
    let header = TarHeader::from_block(&block);
    assert_eq!(header.gname(), Err(TarError::InvalidText(TextField::Gname)));
    assert_eq!(header.casted_fields().err(), Some(TarError::InvalidText(TextField::Gname)));
}

#[test]
fn first_bad_field_gives_the_error() {
    let mut block = header_block("a", 0, b'?');
    put(&mut block, 124, b"not a number");
    put(&mut block, 297, &[0xff; 32]);
    let header = TarHeader::from_block(&block);
    assert_eq!(header.casted_fields().err(), Some(TarError::InvalidText(TextField::Gname)));
    put(&mut block, 297, b"staff\0");
    let header = TarHeader::from_block(&block);
    assert_eq!(header.casted_fields().err(), Some(TarError::InvalidSize));
    put(&mut block, 0, &[0xff; 100]);
    let header = TarHeader::from_block(&block);
    assert_eq!(header.casted_fields().err(), Some(TarError::InvalidText(TextField::Name)));
}

#[test]
fn malformed_size_is_refused() {
    let cases: [&[u8; 12]; 7] = [
        b"000000000017",
        b"\0\0\0\0\0\0\0\0\0\0\0\0",
        b"0000000008\0\0",
        b"      17\0\0\0\0",
        b"0x1f\0\0\0\0\0\0\0\0",
        b"+17\0\0\0\0\0\0\0\0\0",
        b"17 \0\0\0\0\0\0\0\0\0",
    ];
    for case in cases {
        let mut block = header_block("a", 0, b'0');
        put(&mut block, 124, case);
        assert_eq!(TarHeader::from_block(&block).size(), Err(TarError::InvalidSize));
    }
}

#[test]
fn binary_size_is_refused() {
    let mut block = header_block("a", 0, b'0');
    put(&mut block, 124, &[0x80, 0, 0, 0, 0, 0, 0, 2, 0, 0, 0, 0]);
    let header = TarHeader::from_block(&block);
    assert_eq!(header.size(), Err(TarError::InvalidSize));
    assert_eq!(header.casted_fields().err(), Some(TarError::InvalidSize));
}

#[test]
fn largest_size_of_a_header() {
    let header = TarHeader::from_block(&header_block("a", 0o77777777777, b'0'));
    assert_eq!(header.size(), Ok(8589934591));
}

#[test]
fn sentinel_is_all_zeros() {
    let mut block = [0u8; 512];
    assert!(is_zero_block(&block));
    block[511] = 1;
    assert!(!is_zero_block(&block));
    block[511] = 0;
    block[0] = 1;
    assert!(!is_zero_block(&block));
}

#[test]
fn contents_are_padded_to_whole_blocks() {
    assert_eq!(body_block_count(0), 0);
    assert_eq!(body_block_count(1), 1);
    assert_eq!(body_block_count(511), 1);
    assert_eq!(body_block_count(512), 1);
    assert_eq!(body_block_count(513), 2);
    assert_eq!(body_block_count(1024), 2);
    assert_eq!(body_block_count(1025), 3);
    assert_eq!(body_block_count(u64::MAX), 36028797018963968);
}

#[test]
fn read_block_copies_512_bytes() {
    let data: Vec<u8> = (0..1536u32).map(|i| (i % 253) as u8).collect();
    assert_eq!(read_block(&data, 0).unwrap()[..], data[0..512]);
    assert_eq!(read_block(&data, 512).unwrap()[..], data[512..1024]);
    assert_eq!(read_block(&data, 1024).unwrap()[..], data[1024..1536]);
    assert_eq!(read_block(&data, 7).unwrap()[..], data[7..519]);
}

#[test]
fn read_block_refuses_a_short_block() {
    let data = vec![1u8; 1535];
    assert!(read_block(&data, 512).is_ok());
    assert_eq!(read_block(&data, 1024), Err(TarError::Io));
    assert_eq!(read_block(&data, 1535), Err(TarError::Io));
    assert_eq!(read_block(&data, 4000), Err(TarError::Io));
    assert_eq!(read_block(&data, usize::MAX), Err(TarError::Io));
    assert_eq!(read_block(&[], 0), Err(TarError::Io));
}

#[test]
fn errors_tell_where_they_come_from() {
    assert!(!TarError::Io.is_from_destination());
    assert!(!TarError::InvalidMagic.is_from_destination());
    assert!(!TarError::InvalidText(TextField::Name).is_from_destination());
    assert!(!TarError::InvalidSize.is_from_destination());
    assert!(!TarError::InvalidTypeFlag.is_from_destination());
    assert!(TarError::DestinationOpen(String::from("a")).is_from_destination());
    assert!(TarError::DestinationWrite(String::from("b")).is_from_destination());
    assert!(TarError::DestinationCommit(String::from("c")).is_from_destination());
}

#[test]
fn header_joins_into_its_block_again() {
    let block = header_block("./archive/lorem.txt", 4321, b'0');
    assert_eq!(TarHeader::from_block(&block).to_block(), block);
    let mut full = [0u8; 512];
    for (i, b) in full.iter_mut().enumerate() {
        *b = (i * 7 % 256) as u8;
    }
    let written = TarHeader::from_block(&full).to_block();
    assert_eq!(written[..500], full[..500]);
    assert_eq!(written[500..], [0u8; 12]);
    assert_eq!(TarHeader::from_block(&written), TarHeader::from_block(&full));
}

#[test]
fn header_writes_numbers_most_significant_byte_first() {
    let mut block = header_block("a", 0, b'0');
    put(&mut block, 148, &[0xde, 0xad, 0xbe, 0xef, 0x00, 0x01, 0x02, 0xff]);
    put(&mut block, 337, &[0xff; 8]);
    let header = TarHeader::from_block(&block);
    let shown = format!("{:?}", header);
    assert!(shown.contains(&format!("chksum: {},", 0xdeadbeef000102ffu64)));
    assert!(shown.contains(&format!("devminor: {},", u64::MAX)));
    assert_eq!(header.to_block()[148..156], [0xde, 0xad, 0xbe, 0xef, 0x00, 0x01, 0x02, 0xff]);
    assert_eq!(header.to_block()[337..345], [0xff; 8]);
}

#[test]
fn answers_of_a_destination_keep_their_message() {
    assert_eq!(opened(Ok::<u8, String>(7)), Ok(7));
    assert_eq!(
        opened(Err::<u8, String>(String::from("no room"))),
        Err(TarError::DestinationOpen(String::from("no room")))
    );
    assert_eq!(written(Ok(())), Ok(()));
    assert_eq!(
        written(Err(String::from("disk full"))),
        Err(TarError::DestinationWrite(String::from("disk full")))
    );
    assert_eq!(committed(Ok(())), Ok(()));
    assert_eq!(
        committed(Err(String::from("flush failed"))),
        Err(TarError::DestinationCommit(String::from("flush failed")))
    );
}
