use rapidarchive::tar::gnu::{format_gnu_numeral, format_gnu_time};
use rapidarchive::tar::pax;
use rapidarchive::tar::recovery::encode_header;
use rapidarchive::tar::serialize::{headergen, read_ahead_length, shortfall, stream_start};
use rapidarchive::tar::ustar;
use rapidarchive::tar::{HeaderError, PathPart, TarFileType, TarFormat, TarHeader};

fn named(names: &[&str]) -> Vec<PathPart> {
    names.iter().map(|name| PathPart::Normal(name.to_string())).collect()
}

fn plain_header(names: &[&str]) -> TarHeader {
    TarHeader {
        path: named(names),
        unix_mode: 0o644,
        unix_uid: 1000,
        unix_gid: 100,
        file_size: 5,
        mtime: None,
        file_type: TarFileType::FileStream,
        symlink_path: None,
        unix_uname: "user".to_string(),
        unix_gname: "group".to_string(),
        unix_devmajor: 0,
        unix_devminor: 0,
        atime: None,
        birthtime: None,
        recovery_path: None,
        recovery_total_size: None,
        recovery_seek_offset: None,
    }
}

fn field(text: &[u8], size: usize) -> Vec<u8> {
    let mut bytes = text.to_vec();
    bytes.resize(size, 0);
    bytes
}

fn expected_record(
    name: &[u8],
    size: &[u8],
    mtime: &[u8],
    typeflag: u8,
    checksum: &[u8],
) -> Vec<u8> {
    let mut record = field(name, 100);
    record.extend_from_slice(b"0000644\0");
    record.extend_from_slice(b"0001750\0");
    record.extend_from_slice(b"0000144\0");
    record.extend_from_slice(size);
    record.extend_from_slice(mtime);
    record.extend_from_slice(checksum);
    record.push(typeflag);
    record.extend_from_slice(&[0; 100]);
    record.extend_from_slice(b"ustar\x0000");
    record.extend_from_slice(&field(b"user", 32));
    record.extend_from_slice(&field(b"group", 32));
    record.extend_from_slice(b"0000000\0");
    record.extend_from_slice(b"0000000\0");
    record.extend_from_slice(&[0; 155]);
    record.extend_from_slice(&[0; 12]);
    record
}

fn with_checksum(blank: &[u8]) -> Vec<u8> {
    let sum: u32 = blank.iter().map(|byte| *byte as u32).sum();
    let mut record = blank.to_vec();
    record[148..156].copy_from_slice(format!("{:06o}\0 ", sum & 0o777777).as_bytes());
    record
}

#[test]
fn ustar_header_layout() {
    let header = ustar::ustar_header(&plain_header(&["hello.txt"])).unwrap();

    assert_eq!(header.len(), 512);
    assert_eq!(
        header,
        expected_record(b"hello.txt", b"00000000005\0", b"00000000000\0", b'0', b"        ")
    );
}

#[test]
fn ustar_header_of_a_directory() {
    let mut tarheader = plain_header(&["some", "dir"]);
    tarheader.file_type = TarFileType::Directory;
    tarheader.mtime = Some(0o12345670123);

    let header = ustar::ustar_header(&tarheader).unwrap();

    assert_eq!(
        header,
        expected_record(b"some/dir/", b"00000000005\0", b"12345670123\0", b'5', b"        ")
    );
}

#[test]
fn ustar_header_checksum() {
    let mut header = ustar::ustar_header(&plain_header(&["hello.txt"])).unwrap();
    let expected = with_checksum(&header);

    ustar::checksum_header(&mut header);

    assert_eq!(header, expected);
    assert_eq!(&header[154..156], b"\0 ");
}

#[test]
fn checksum_of_zero_record() {
    let mut record = vec![0u8; 512];

    ustar::checksum_header(&mut record);

    assert_eq!(&record[148..156], b"000400\0 ");
    assert_eq!(&record[..148], vec![0u8; 148].as_slice());
    assert_eq!(&record[156..], vec![0u8; 356].as_slice());
}

#[test]
fn checksum_keeps_the_low_eighteen_bits() {
    let mut record = vec![255u8; 2000];

    ustar::checksum_header(&mut record);

    let sum: u32 = 1992 * 255 + 8 * 32;
    assert!(sum > 0o777777);
    assert_eq!(&record[148..156], format!("{:06o}\0 ", sum & 0o777777).as_bytes());
}

#[test]
fn checksum_replaces_an_old_checksum() {
    let mut header = ustar::ustar_header(&plain_header(&["hello.txt"])).unwrap();
    ustar::checksum_header(&mut header);
    let once = header.clone();

    ustar::checksum_header(&mut header);

    assert_eq!(header, once);
}

#[test]
fn ustar_header_name_too_long() {
    let long = "x".repeat(300);
    let tarheader = plain_header(&[long.as_str()]);

    assert_eq!(ustar::ustar_header(&tarheader), Err(HeaderError::NameTooLong));
    assert_eq!(encode_header(&tarheader, TarFormat::USTAR), Err(HeaderError::NameTooLong));
}

#[test]
fn ustar_header_name_outside_ascii() {
    let tarheader = plain_header(&["caf\u{e9}"]);

    assert_eq!(ustar::ustar_header(&tarheader), Err(HeaderError::NameTooLong));
}

#[test]
fn ustar_header_writes_large_numbers_in_base_256() {
    let mut tarheader = plain_header(&["hello.txt"]);
    tarheader.unix_mode = 0o10000000;
    tarheader.file_size = 8 * 1024 * 1024 * 1024;
    tarheader.unix_uid = 0o10000000;
    tarheader.mtime = Some(-5);

    let header = ustar::ustar_header(&tarheader).unwrap();

    assert_eq!(&header[100..108], &[0x80, 0, 0, 0, 0, 0x20, 0, 0]);
    assert_eq!(&header[108..116], &[0x80, 0, 0, 0, 0, 0x20, 0, 0]);
    assert_eq!(&header[116..124], b"0000144\0");
    assert_eq!(&header[124..136], &[0x80, 0, 0, 0, 0, 0, 0, 2, 0, 0, 0, 0]);
    assert_eq!(&header[136..148], &[0; 12]);
}

#[test]
fn header_cuts_long_user_names() {
    let mut tarheader = plain_header(&["hello.txt"]);
    tarheader.unix_uname = "u".repeat(40);
    tarheader.unix_gname = "g".repeat(32);

    let header = ustar::ustar_header(&tarheader).unwrap();

    assert_eq!(header.len(), 512);
    assert_eq!(&header[265..296], "u".repeat(31).as_bytes());
    assert_eq!(header[296], 0);
    assert_eq!(&header[297..328], "g".repeat(31).as_bytes());
    assert_eq!(header[328], 0);
}

#[test]
fn tar_numeral_edges() {
    assert_eq!(ustar::format_tar_numeral(0, 8).unwrap(), b"0000000\0");
    assert_eq!(ustar::format_tar_numeral(0o7777777, 8).unwrap(), b"7777777\0");
    assert_eq!(ustar::format_tar_numeral(0o10000000, 8), None);
    assert_eq!(ustar::format_tar_numeral(0, 1).unwrap(), b"\0");
    assert_eq!(ustar::format_tar_numeral(1, 1), None);
    assert_eq!(ustar::format_tar_numeral(0, 0), None);
    assert_eq!(ustar::format_tar_numeral(u64::MAX, 23).unwrap(), b"1777777777777777777777\0");
    assert_eq!(ustar::format_tar_numeral(u64::MAX, 22), None);
    assert_eq!(ustar::format_tar_numeral(8, 100).unwrap().len(), 100);
}

#[test]
fn tar_string_needs_room_for_a_zero_byte() {
    assert_eq!(ustar::format_tar_string("abc", 4).unwrap(), b"abc\0");
    assert_eq!(ustar::format_tar_string("abcd", 4), None);
    assert_eq!(ustar::format_tar_string("", 0), None);
    assert_eq!(ustar::format_tar_string("", 1).unwrap(), b"\0");
}

#[test]
fn tar_time() {
    assert_eq!(ustar::format_tar_time(0o777).unwrap(), b"00000000777\0");
    assert_eq!(ustar::format_tar_time(-1), Err(HeaderError::OlderThanEpoch));
    assert_eq!(ustar::format_tar_time(0o100000000000), Err(HeaderError::NumeralTooLarge));
}

#[test]
fn gnu_numeral_edges() {
    assert_eq!(format_gnu_numeral(0o7777777, 8).unwrap(), b"7777777\0");
    assert_eq!(
        format_gnu_numeral(0o10000000, 8).unwrap(),
        vec![0x80, 0, 0, 0, 0, 0x20, 0, 0]
    );
    assert_eq!(
        format_gnu_numeral(0x00FF_FFFF_FFFF_FFFF, 8).unwrap(),
        vec![0x80, 0xFF, 0xFF, 0xFF, 0xFF, 0xFF, 0xFF, 0xFF]
    );
    assert_eq!(format_gnu_numeral(0x0100_0000_0000_0000, 8), None);
    assert_eq!(
        format_gnu_numeral(u64::MAX, 12).unwrap(),
        vec![0x80, 0, 0, 0, 0xFF, 0xFF, 0xFF, 0xFF, 0xFF, 0xFF, 0xFF, 0xFF]
    );
    assert_eq!(format_gnu_numeral(0, 0), None);
    assert_eq!(format_gnu_numeral(0, 1).unwrap(), vec![0]);
    assert_eq!(format_gnu_numeral(9, 2).unwrap(), vec![0x80, 9]);
    assert_eq!(format_gnu_numeral(256, 2), None);
}

#[test]
fn gnu_time() {
    assert_eq!(format_gnu_time(0o777).unwrap(), b"00000000777\0");
    assert_eq!(format_gnu_time(-1), Err(HeaderError::OlderThanEpoch));
    assert_eq!(
        format_gnu_time(0o100000000000).unwrap(),
        vec![0x80, 0, 0, 0, 0, 0, 0, 2, 0, 0, 0, 0]
    );
}

#[test]
fn pax_time() {
    assert_eq!(pax::format_pax_time(0).unwrap(), b"0");
    assert_eq!(pax::format_pax_time(1234567890).unwrap(), b"1234567890");
    assert_eq!(pax::format_pax_time(-1), Err(HeaderError::OlderThanEpoch));
}

#[test]
fn pax_attribute_counts_its_own_length() {
    for value_length in [0usize, 1, 4, 5, 80, 93, 94, 95, 96, 990, 9990, 99990] {
        let value = "v".repeat(value_length);
        let record = pax::format_pax_attribute("k", &value);
        let space = record.iter().position(|byte| *byte == b' ').unwrap();
        let told: usize = std::str::from_utf8(&record[..space]).unwrap().parse().unwrap();
        assert_eq!(told, record.len());
        assert_eq!(record.len(), value_length + 4 + space);
        assert_eq!(&record[space..space + 3], b" k=");
        assert_eq!(record[record.len() - 1], b'\n');
    }
}

#[test]
fn pax_attribute_takes_the_least_length() {
    let value = "v".repeat(93);
    assert_eq!(&pax::format_pax_attribute("k", &value)[..3], b"99 ");
    let value = "v".repeat(94);
    assert_eq!(&pax::format_pax_attribute("k", &value)[..4], b"101 ");
}

#[test]
fn pax_header_without_extended_header() {
    let header = pax::pax_header(&plain_header(&["hello.txt"])).unwrap();

    assert_eq!(
        header,
        expected_record(b"hello.txt", b"00000000005\0", b"00000000000\0", b'0', b"        ")
    );
}

#[test]
fn pax_header_with_times() {
    let mut tarheader = plain_header(&["dir", "hello.txt"]);
    tarheader.mtime = Some(1_500_000_000);
    tarheader.atime = Some(5);
    tarheader.birthtime = Some(0);

    let header = pax::pax_header(&tarheader).unwrap();

    let stream = b"20 mtime=1500000000\n11 atime=5\n29 LIBARCHIVE.creationtime=0\n";
    assert_eq!(header.len(), 1536);
    assert_eq!(
        &header[..512],
        expected_record(
            b"dir/PaxHeaders/hello.txt",
            b"00000000074\0",
            b"13132027400\0",
            b'x',
            b"        "
        )
        .as_slice()
    );
    assert_eq!(&header[512..512 + stream.len()], stream.as_slice());
    assert_eq!(&header[512 + stream.len()..1024], vec![0u8; 512 - stream.len()].as_slice());
    assert_eq!(
        &header[1024..],
        expected_record(b"dir/hello.txt", b"00000000005\0", b"13132027400\0", b'0', b"        ")
            .as_slice()
    );
}

#[test]
fn pax_header_checksums_first_and_last_record() {
    let mut tarheader = plain_header(&["hello.txt"]);
    tarheader.mtime = Some(1_500_000_000);
    let mut header = pax::pax_header(&tarheader).unwrap();
    let first = with_checksum(&header[..512]);
    let middle = header[512..1024].to_vec();
    let last = with_checksum(&header[1024..]);

    pax::checksum_header(&mut header);

    assert_eq!(&header[..512], first.as_slice());
    assert_eq!(&header[512..1024], middle.as_slice());
    assert_eq!(&header[1024..], last.as_slice());
    assert_eq!(encode_header(&tarheader, TarFormat::POSIX).unwrap(), header);
}

#[test]
fn pax_header_for_large_file_and_long_name() {
    let long = "n".repeat(200);
    let mut tarheader = plain_header(&[long.as_str()]);
    tarheader.file_size = 8 * 1024 * 1024 * 1024;

    let header = pax::pax_header(&tarheader).unwrap();

    let mut stream = b"19 size=8589934592\n".to_vec();
    stream.extend_from_slice(format!("210 path={}\n", long).as_bytes());
    assert_eq!(header.len(), 1536);
    assert_eq!(header[156], b'x');
    assert_eq!(&header[124..136], b"00000000345\0");
    assert_eq!(&header[512..512 + stream.len()], stream.as_slice());
    assert_eq!(
        &header[1024 + 124..1024 + 136],
        &[0x80, 0, 0, 0, 0, 0, 0, 2, 0, 0, 0, 0]
    );
    assert_eq!(&header[1024..1024 + 99], long[101..].as_bytes());
    assert_eq!(header[1024 + 99], 0);
    assert_eq!(&header[1024 + 345..1024 + 446], long[..101].as_bytes());
    assert_eq!(&header[1024 + 446..1024 + 500], &[0; 54]);
}

#[test]
fn pax_header_for_name_outside_ascii() {
    let tarheader = plain_header(&["caf\u{e9}.txt"]);

    let header = pax::pax_header(&tarheader).unwrap();

    assert_eq!(header.len(), 1536);
    assert_eq!(&header[512..512 + 18], "18 path=caf\u{e9}.txt\n".as_bytes());
    assert_eq!(&header[1024..1024 + 8], b"caf.txt\0");
}

#[test]
fn pax_header_of_a_continuation() {
    let mut tarheader = plain_header(&["hello.txt"]);
    tarheader.file_size = 30;
    tarheader.recovery_path = Some(named(&["orig", "hello.txt"]));
    tarheader.recovery_total_size = Some(100);
    tarheader.recovery_seek_offset = Some(70);

    let header = pax::pax_header(&tarheader).unwrap();

    let stream =
        b"38 GNU.volume.filename=orig/hello.txt\n22 GNU.volume.size=30\n24 GNU.volume.offset=70\n";
    assert_eq!(&header[512..512 + stream.len()], stream.as_slice());
    assert_eq!(header[512 + stream.len()], 0);
    assert_eq!(&header[1024 + 124..1024 + 136], b"00000000036\0");
}

#[test]
fn pax_header_size_of_what_is_no_file_is_zero() {
    let mut tarheader = plain_header(&["dir"]);
    tarheader.file_type = TarFileType::Directory;
    tarheader.file_size = 4096;

    let header = pax::pax_header(&tarheader).unwrap();

    assert_eq!(header.len(), 512);
    assert_eq!(&header[..5], b"dir/\0");
    assert_eq!(&header[124..136], b"00000000000\0");
    assert_eq!(header[156], b'5');
}

#[test]
fn pax_header_older_than_epoch() {
    for which in 0..3 {
        let mut tarheader = plain_header(&["hello.txt"]);
        match which {
            0 => tarheader.mtime = Some(-1),
            1 => tarheader.atime = Some(-1),
            _ => tarheader.birthtime = Some(i64::MIN),
        }
        assert_eq!(pax::pax_header(&tarheader), Err(HeaderError::OlderThanEpoch));
        assert_eq!(encode_header(&tarheader, TarFormat::POSIX), Err(HeaderError::OlderThanEpoch));
    }
}

#[test]
fn pax_header_name() {
    let file = TarFileType::FileStream;
    assert_eq!(pax::pax_header_name(&named(&["a", "b", "c"]), file), "a/b/PaxHeaders/c");
    assert_eq!(pax::pax_header_name(&named(&["c"]), file), "./PaxHeaders/c");
    assert_eq!(pax::pax_header_name(&[], file), "./PaxHeaders");
    assert_eq!(pax::pax_header_name(&[PathPart::CurDir], file), "./PaxHeaders");
    assert_eq!(pax::pax_header_name(&[PathPart::ParentDir], file), "./PaxHeaders/..");
    assert_eq!(pax::pax_header_name(&[PathPart::RootDir], file), "");
    assert_eq!(
        pax::pax_header_name(&[PathPart::RootDir, PathPart::Normal("c".to_string())], file),
        "PaxHeaders/c"
    );
    assert_eq!(
        pax::pax_header_name(&[PathPart::Normal("a".to_string()), PathPart::ParentDir], file),
        "a/../PaxHeaders"
    );
    assert_eq!(
        pax::pax_header_name(&named(&["a", "d"]), TarFileType::Directory),
        "a/PaxHeaders/d/"
    );
}

#[test]
fn type_flags() {
    assert_eq!(TarFileType::FileStream.type_flag(), '0');
    assert_eq!(TarFileType::HardLink.type_flag(), '1');
    assert_eq!(TarFileType::SymbolicLink.type_flag(), '2');
    assert_eq!(TarFileType::CharacterDevice.type_flag(), '3');
    assert_eq!(TarFileType::BlockDevice.type_flag(), '4');
    assert_eq!(TarFileType::Directory.type_flag(), '5');
    assert_eq!(TarFileType::FIFOPipe.type_flag(), '6');
    assert_eq!(TarFileType::Other('L').type_flag(), 'L');
    assert_eq!(TarFileType::Other('L').type_byte(), b'L');
    assert_eq!(TarFileType::Other('\u{141}').type_byte(), 0x41);
}

#[test]
fn tar_format_names() {
    assert!(matches!(TarFormat::from_name("ustar"), Some(TarFormat::USTAR)));
    assert!(matches!(TarFormat::from_name("posix"), Some(TarFormat::POSIX)));
    assert!(TarFormat::from_name("USTAR").is_none());
    assert!(TarFormat::from_name("").is_none());
    assert!(matches!("ustar".parse::<TarFormat>(), Ok(TarFormat::USTAR)));
    assert!(matches!("posix".parse::<TarFormat>(), Ok(TarFormat::POSIX)));
    assert!(matches!("Posix".parse::<TarFormat>(), Err(())));
    assert!(matches!("".parse::<TarFormat>(), Err(())));
    assert!("gnu".parse::<TarFormat>().is_err());
}

#[test]
fn headergen_keeps_what_it_is_given() {
    let entry = headergen(
        named(&["as", "given"]),
        named(&["to", "open"]),
        plain_header(&["hello.txt"]),
        TarFormat::USTAR,
        Some(vec![1, 2, 3, 4, 5]),
    )
    .unwrap();

    assert_eq!(entry.encoded_header.len(), 512);
    assert_eq!(&entry.encoded_header[..9], b"hello.txt");
    assert_ne!(&entry.encoded_header[148..156], b"        ");
    assert_eq!(entry.original_path, named(&["as", "given"]));
    assert_eq!(entry.canonical_path, named(&["to", "open"]));
    assert_eq!(entry.file_prefix, Some(vec![1, 2, 3, 4, 5]));
    assert_eq!(stream_start(&entry), None);
    assert_eq!(shortfall(&entry, 517), None);
    assert_eq!(shortfall(&entry, 515), Some(2));
    assert_eq!(shortfall(&entry, 600), Some(0));
}

#[test]
fn headergen_fails_with_the_header() {
    let long = "x".repeat(300);
    let result = headergen(
        vec![],
        vec![],
        plain_header(&[long.as_str()]),
        TarFormat::USTAR,
        None,
    );

    assert!(matches!(result, Err(HeaderError::NameTooLong)));
}

#[test]
fn stream_starts_after_what_was_read_ahead() {
    let mut tarheader = plain_header(&["hello.txt"]);
    tarheader.file_size = 100_000;
    assert_eq!(read_ahead_length(&tarheader), Some(65536));
    let mut entry =
        headergen(vec![], vec![], tarheader, TarFormat::POSIX, Some(vec![0; 65536])).unwrap();
    assert_eq!(stream_start(&entry), Some(65536));

    entry.file_prefix = None;
    assert_eq!(stream_start(&entry), Some(0));

    entry.tar_header.file_type = TarFileType::Directory;
    assert_eq!(stream_start(&entry), None);
    assert_eq!(read_ahead_length(&entry.tar_header), None);
    assert_eq!(shortfall(&entry, 0), None);

    assert_eq!(read_ahead_length(&plain_header(&["hello.txt"])), Some(5));
}
