use rapidarchive::changer::{DataElement, MediaElementStatus, MediaSlot};
use rapidarchive::concurrentbuf::{
    command_task_write, ConcurrentCommand, ConcurrentResponse, ConcurrentWriteBuffer, DrainStep,
};
use rapidarchive::driver::{parse_answer, step, DriverAction, DriverEvent, DriverState, PromptAnswer};
use rapidarchive::fs::{get_file_type, get_unix_mode, EntryKind, FileInfo, FileTypeError};
use rapidarchive::result::PartialResult;
use rapidarchive::spanning::{
    ByteSink, DataZone, LimitingWriter, MemorySink, RecoverableWrite, SinkError,
};
use rapidarchive::tape::{
    close_plan, read_outcome, seek_outcome, seek_plan, write_outcome, CloseAction, SpillBuffer,
    TapeCommand, TapeCondition, TapeOp, TapeOutcome, TapeSeek, TapeStep, TapeUnit,
};
use rapidarchive::tar::recovery::{
    continuation_header, leftover_zones, plan_recovery, recovery_offset,
};
use rapidarchive::tar::{
    PathPart, RecoveryEntry, TarFileType, TarFormat, TarHeader, TarLabel,
};
use rapidarchive::traverse::TraversalError;
use rapidarchive::tuning::Configuration;
use rapidarchive::units::data::ParseSizeError;
use rapidarchive::units::{DataSize, HRDuration};
use std::time::Duration;

fn named(names: &[&str]) -> Vec<PathPart> {
    names.iter().map(|name| PathPart::Normal(name.to_string())).collect()
}

fn header(size: u64) -> TarHeader {
    TarHeader {
        path: named(&["data", "file"]),
        unix_mode: 0o600,
        unix_uid: 1,
        unix_gid: 2,
        file_size: size,
        mtime: Some(10),
        file_type: TarFileType::FileStream,
        symlink_path: None,
        unix_uname: "u".to_string(),
        unix_gname: "g".to_string(),
        unix_devmajor: 0,
        unix_devminor: 0,
        atime: None,
        birthtime: None,
        recovery_path: None,
        recovery_total_size: None,
        recovery_seek_offset: None,
    }
}

fn zone_of(entry: Option<RecoveryEntry>, length: u64, committed: u64) -> DataZone<RecoveryEntry> {
    DataZone {
        ident: entry,
        length,
        committed_length: committed,
        uncommitted_length: length - committed,
    }
}

#[test]
fn partial_result_views() {
    let complete: PartialResult<u32, &str> = PartialResult::Complete(1);
    let partial: PartialResult<u32, &str> = PartialResult::Partial(2, "half");
    let failure: PartialResult<u32, &str> = PartialResult::Failure("none");

    assert_eq!(complete.ok(), Some(1));
    assert_eq!(partial.ok(), Some(2));
    assert_eq!(failure.ok(), None);
    assert_eq!(complete.err(), None);
    assert_eq!(partial.err(), Some("half"));
    assert_eq!(failure.err(), Some("none"));
    assert_eq!(complete.complete(), Ok(1));
    assert_eq!(partial.complete(), Err("half"));
    assert_eq!(failure.complete(), Err("none"));
    assert_eq!(complete.partial(), Ok(1));
    assert_eq!(partial.partial(), Ok(2));
    assert_eq!(failure.partial(), Err("none"));
    assert_eq!(complete.both(), (Some(1), None));
    assert_eq!(partial.both(), (Some(2), Some("half")));
    assert_eq!(failure.both(), (None, Some("none")));
    assert_eq!(complete.unwrap(), 1);
    assert_eq!(partial.expect("a result"), 2);
    assert_eq!(partial.unwrap_err(), "half");
    assert_eq!(failure.expect_err("an error"), "none");
    assert_eq!(PartialResult::<u32, &str>::from_result(Ok(3)), PartialResult::Complete(3));
    assert_eq!(PartialResult::<u32, &str>::from_result(Err("e")), PartialResult::Failure("e"));
    assert_eq!(PartialResult::<u32, &str>::from(Ok(4)), PartialResult::Complete(4));
    assert_eq!(PartialResult::<u32, &str>::from(Err("e")), PartialResult::Failure("e"));
}

#[test]
fn data_size_parses_units() {
    assert_eq!(DataSize::parse("0").unwrap().into_inner(), 0);
    assert_eq!(DataSize::parse("512").unwrap().into_inner(), 512);
    assert_eq!(DataSize::parse("+7").unwrap().into_inner(), 7);
    assert_eq!(DataSize::parse("10k").unwrap().into_inner(), 10240);
    assert_eq!(DataSize::parse("10K").unwrap().into_inner(), 10240);
    assert_eq!(DataSize::parse("3m").unwrap().into_inner(), 3 * 1024 * 1024);
    assert_eq!(DataSize::parse("1G").unwrap().into_inner(), 1024 * 1024 * 1024);
    assert_eq!(DataSize::parse("2t").unwrap().into_inner(), 2 * 1024u64.pow(4));
    assert_eq!(DataSize::parse("007").unwrap().into_inner(), 7);
    assert_eq!(
        DataSize::parse("18446744073709551615").unwrap().into_inner(),
        u64::MAX
    );
    assert_eq!("16777215t".parse::<DataSize<u64>>().unwrap().into_inner(), 16777215 << 40);
}

#[test]
fn data_size_errors() {
    assert_eq!(DataSize::parse("").err(), Some(ParseSizeError::Empty));
    assert_eq!(DataSize::parse("+").err(), Some(ParseSizeError::Empty));
    assert_eq!(DataSize::parse("k").err(), Some(ParseSizeError::Empty));
    assert_eq!(DataSize::parse("12x").err(), Some(ParseSizeError::InvalidDigit));
    assert_eq!(DataSize::parse("-1").err(), Some(ParseSizeError::InvalidDigit));
    assert_eq!(DataSize::parse("1kk").err(), Some(ParseSizeError::InvalidDigit));
    assert_eq!(DataSize::parse("1 k").err(), Some(ParseSizeError::InvalidDigit));
    assert_eq!(DataSize::parse("18446744073709551616").err(), Some(ParseSizeError::Overflow));
    assert_eq!(DataSize::parse("99999999999999999999999").err(), Some(ParseSizeError::Overflow));
    assert_eq!(DataSize::parse("16777216t").err(), Some(ParseSizeError::Overflow));
}

#[test]
fn data_size_from_text() {
    assert_eq!("0".parse::<DataSize<u64>>().unwrap().into_inner(), 0);
    assert_eq!("5120".parse::<DataSize<u64>>().unwrap().into_inner(), 5120);
    assert_eq!("64K".parse::<DataSize<u64>>().unwrap().into_inner(), 65536);
    assert_eq!("".parse::<DataSize<u64>>().err(), Some(ParseSizeError::Empty));
    assert_eq!("1z".parse::<DataSize<u64>>().err(), Some(ParseSizeError::InvalidDigit));
    assert_eq!("16777216t".parse::<DataSize<u64>>().err(), Some(ParseSizeError::Overflow));
}

#[test]
fn data_size_holds_its_number() {
    assert_eq!(DataSize::from(42u64).into_inner(), 42);
    assert_eq!(DataSize::new("text").into_inner(), "text");
    assert!(DataSize::from(1u8) == DataSize::new(1u8));
}

#[test]
fn time_in_words() {
    assert_eq!(HRDuration::new(0, 0).to_string(), "");
    assert_eq!(HRDuration::new(59, 0).to_string(), "59s");
    assert_eq!(HRDuration::new(60, 0).to_string(), "1m");
    assert_eq!(HRDuration::new(86400, 0).to_string(), "1d");
    assert_eq!(HRDuration::new(90061, 1_002_003).to_string(), "1d1h1m1s1ms2\u{3bc}s3ns");
    assert_eq!(HRDuration::new(0, 999_999_999).to_string(), "999ms999\u{3bc}s999ns");
    assert_eq!(
        HRDuration::new(u64::MAX, 0).to_string(),
        "213503982334601d7h15s"
    );
    assert_eq!(HRDuration::from(Duration::new(3600, 5000)).to_string(), "1h5\u{3bc}s");
}

#[test]
fn default_configuration() {
    let configuration = Configuration::default();

    assert_eq!(configuration.channel_queue_depth, 1024);
    assert_eq!(configuration.parallel_io_limit, 32);
    assert_eq!(configuration.blocking_factor, 20);
    assert_eq!(configuration.serial_buffer_limit, 1 << 30);
}

#[test]
fn changer_slots() {
    let slot = MediaSlot {
        index: 3,
        status: MediaElementStatus::Full(DataElement {
            volume_id: Some("A00001".to_string()),
            media_wear_indicator: None,
        }),
    };

    assert_eq!(slot.index, 3);
    assert!(matches!(slot.status, MediaElementStatus::Full(ref volume) if volume.volume_id.is_some()));
    assert!(matches!(MediaElementStatus::Empty, MediaElementStatus::Empty));
}

#[test]
fn traversal_errors() {
    let cancelled = TraversalError::TraversalCancelled;
    let failed =
        TraversalError::IOError(std::io::Error::new(std::io::ErrorKind::NotFound, "gone"));

    assert!(matches!(cancelled, TraversalError::TraversalCancelled));
    assert!(matches!(failed, TraversalError::IOError(ref e) if e.kind() == std::io::ErrorKind::NotFound));
}

#[test]
fn portable_modes() {
    assert_eq!(get_unix_mode(false, false), 0o644);
    assert_eq!(get_unix_mode(false, true), 0o444);
    assert_eq!(get_unix_mode(true, false), 0o755);
    assert_eq!(get_unix_mode(true, true), 0o555);
}

#[test]
fn file_types() {
    assert!(matches!(get_file_type(EntryKind::File), Ok(TarFileType::FileStream)));
    assert!(matches!(get_file_type(EntryKind::Directory), Ok(TarFileType::Directory)));
    assert!(matches!(get_file_type(EntryKind::Symlink), Ok(TarFileType::SymbolicLink)));
    assert!(matches!(get_file_type(EntryKind::BlockDevice), Ok(TarFileType::BlockDevice)));
    assert!(matches!(get_file_type(EntryKind::CharacterDevice), Ok(TarFileType::CharacterDevice)));
    assert!(matches!(get_file_type(EntryKind::Fifo), Ok(TarFileType::FIFOPipe)));
    assert!(matches!(get_file_type(EntryKind::Socket), Err(FileTypeError::SocketNotArchivable)));
    assert!(matches!(get_file_type(EntryKind::Unknown), Err(FileTypeError::NoValidFileType)));
}

#[test]
fn tape_close_plans() {
    assert_eq!(
        close_plan(TapeCommand::Write, false),
        vec![CloseAction::WriteFilemark, CloseAction::WriteFilemark, CloseAction::SeekFilemarks(-1)]
    );
    assert_eq!(
        close_plan(TapeCommand::WriteFilemark, true),
        vec![CloseAction::WriteFilemark, CloseAction::SeekFilemarks(-1)]
    );
    assert_eq!(close_plan(TapeCommand::Read, false), vec![CloseAction::SeekFilemarks(1)]);
    assert_eq!(close_plan(TapeCommand::Read, true), vec![]);
    assert_eq!(close_plan(TapeCommand::NoneOfTheAbove, false), vec![]);
}

#[test]
fn tape_conditions() {
    assert_eq!(write_outcome(TapeCondition::EndOfMedia), TapeOutcome::ShortWrite);
    assert_eq!(write_outcome(TapeCondition::FilemarkDetected), TapeOutcome::Failure);
    assert_eq!(seek_outcome(TapeCondition::FilemarkDetected), TapeOutcome::Finished);
    assert_eq!(seek_outcome(TapeCondition::SetmarkDetected), TapeOutcome::Finished);
    assert_eq!(seek_outcome(TapeCondition::NoDataDetected), TapeOutcome::Finished);
    assert_eq!(seek_outcome(TapeCondition::MediaChanged), TapeOutcome::Finished);
    assert_eq!(seek_outcome(TapeCondition::EndOfMedia), TapeOutcome::Failure);
    assert_eq!(read_outcome(TapeCondition::FilemarkDetected), TapeOutcome::EndOfFile);
    assert_eq!(read_outcome(TapeCondition::SetmarkDetected), TapeOutcome::EndOfFile);
    assert_eq!(read_outcome(TapeCondition::NoDataDetected), TapeOutcome::EndOfFile);
    assert_eq!(read_outcome(TapeCondition::MoreData), TapeOutcome::RetryLarger);
    assert_eq!(read_outcome(TapeCondition::MediaChanged), TapeOutcome::RetryLarger);
    assert_eq!(read_outcome(TapeCondition::Other), TapeOutcome::Failure);
}

#[test]
fn spill_buffer_hands_out_a_record_in_pieces() {
    let mut spill = SpillBuffer::new();
    assert!(spill.needs_record());

    spill.load(vec![1, 2, 3, 4, 5]);
    assert_eq!(spill.take(2), vec![1, 2]);
    assert!(!spill.needs_record());
    assert_eq!(spill.take(0), Vec::<u8>::new());
    assert!(!spill.needs_record());
    assert_eq!(spill.take(2), vec![3, 4]);
    assert_eq!(spill.take(2), vec![5]);
    assert!(spill.needs_record());

    spill.load(vec![6, 7, 8]);
    assert_eq!(spill.take(1), vec![6]);
    assert_eq!(spill.read_block(), vec![7, 8]);
    assert!(spill.needs_record());

    spill.load(vec![9, 10]);
    assert_eq!(spill.take(0), Vec::<u8>::new());
    assert!(!spill.needs_record());
    assert_eq!(spill.take(10), vec![9, 10]);
    assert!(spill.needs_record());

    spill.load(vec![]);
    assert!(spill.needs_record());
    assert_eq!(spill.read_block(), Vec::<u8>::new());
}

#[test]
fn worker_carries_out_commands() {
    let mut sink = MemorySink::new(vec![]);

    let wrote =
        command_task_write::<_, u64>(&mut sink, ConcurrentCommand::DoWriteAll(vec![1, 2, 3]));
    assert!(matches!(wrote, ConcurrentResponse::DidWriteAll(Ok(3))));
    assert!(matches!(
        command_task_write::<_, u64>(&mut sink, ConcurrentCommand::DoFlush),
        ConcurrentResponse::DidFlush(Ok(()))
    ));
    assert!(matches!(
        command_task_write(&mut sink, ConcurrentCommand::DoBeginDataZone(1u64)),
        ConcurrentResponse::DidBeginDataZone
    ));
    assert!(matches!(
        command_task_write(&mut sink, ConcurrentCommand::DoResumeDataZone(1u64, 5)),
        ConcurrentResponse::DidResumeDataZone
    ));
    assert!(matches!(
        command_task_write::<_, u64>(&mut sink, ConcurrentCommand::DoEndDataZone),
        ConcurrentResponse::DidEndDataZone
    ));
    assert!(matches!(
        command_task_write::<_, u64>(&mut sink, ConcurrentCommand::DoRead(10)),
        ConcurrentResponse::DidRead(Err(_))
    ));
    assert!(matches!(
        command_task_write::<_, u64>(&mut sink, ConcurrentCommand::Terminate),
        ConcurrentResponse::Terminated
    ));
    assert_eq!(sink.get_ref(), &vec![1, 2, 3]);
}

#[test]
fn worker_reports_a_full_sink() {
    let mut sink = LimitingWriter::wrap(MemorySink::new(vec![]), 2);
    let mut stage = rapidarchive::spanning::UnbufferedWriter::wrap(sink);

    let wrote =
        command_task_write::<_, u64>(&mut stage, ConcurrentCommand::DoWriteAll(vec![1, 2, 3]));

    assert!(matches!(wrote, ConcurrentResponse::DidWriteAll(Err(SinkError::WriteZero))));
    sink = LimitingWriter::wrap(MemorySink::new(vec![]), 2);
    assert_eq!(sink.write(&[1]).unwrap(), 1);
}

#[test]
fn buffer_waits_for_room() {
    let mut buffer: ConcurrentWriteBuffer<u64> = ConcurrentWriteBuffer::new(1000);
    let _ = buffer.begin_data_zone(1);

    assert!(!buffer.needs_space(600));
    buffer.mark_data_buffered(600);
    assert!(buffer.needs_space(600));
    assert!(!buffer.needs_space(400));
    assert!(buffer.needs_space(1000));
    assert!(!buffer.needs_space(1001));
    assert!(!buffer.needs_space(5000));

    let step =
        buffer.drain_buf_until_space(600, Some(ConcurrentResponse::DidBeginDataZone));
    assert!(matches!(step, DrainStep::Wait));
    let step =
        buffer.drain_buf_until_space(600, Some(ConcurrentResponse::DidWriteAll(Ok(100))));
    assert!(matches!(step, DrainStep::Wait));
    let step =
        buffer.drain_buf_until_space(600, Some(ConcurrentResponse::DidWriteAll(Ok(100))));
    assert!(matches!(step, DrainStep::Done));

    let zones = buffer.uncommitted_writes(vec![]);
    assert_eq!(zones.len(), 1);
    assert_eq!(zones[0].length, 600);
    assert_eq!(zones[0].committed_length, 200);
    assert_eq!(zones[0].uncommitted_length, 400);
}

#[test]
fn buffer_fails_with_the_worker() {
    let mut buffer: ConcurrentWriteBuffer<u64> = ConcurrentWriteBuffer::new(10);

    assert!(matches!(
        buffer.drain_buf_until_space(5, None),
        DrainStep::Failed(SinkError::WorkerTerminated)
    ));
    assert!(matches!(
        buffer.drain_buf_until_flush(None),
        DrainStep::Failed(SinkError::WorkerTerminated)
    ));
    assert!(matches!(
        buffer.drain_buf_until_space(
            5,
            Some(ConcurrentResponse::DidWriteAll(Err(SinkError::WriteZero)))
        ),
        DrainStep::Failed(SinkError::WriteZero)
    ));
    assert!(matches!(
        buffer.drain_buf_until_flush(Some(ConcurrentResponse::DidFlush(Err(
            SinkError::WriteZero
        )))),
        DrainStep::Failed(SinkError::WriteZero)
    ));
    assert!(matches!(
        buffer.drain_buf_until_space(
            5,
            Some(ConcurrentResponse::DidRead(Err(SinkError::WorkerTerminated)))
        ),
        DrainStep::Failed(SinkError::WorkerTerminated)
    ));
}

#[test]
fn buffer_waits_for_its_flush() {
    let mut buffer: ConcurrentWriteBuffer<u64> = ConcurrentWriteBuffer::new(10);
    let begun = buffer.begin_data_zone(8);
    assert!(matches!(begun, ConcurrentCommand::DoBeginDataZone(8)));
    buffer.mark_data_buffered(7);
    let ended = buffer.end_data_zone();
    assert!(matches!(ended, ConcurrentCommand::DoEndDataZone));
    let resumed = buffer.resume_data_zone(9, 50);
    assert!(matches!(resumed, ConcurrentCommand::DoResumeDataZone(9, 50)));

    assert!(matches!(
        buffer.drain_buf_until_flush(Some(ConcurrentResponse::DidWriteAll(Ok(7)))),
        DrainStep::Wait
    ));
    assert!(matches!(
        buffer.drain_buf_until_flush(Some(ConcurrentResponse::DidEndDataZone)),
        DrainStep::Wait
    ));
    assert!(matches!(
        buffer.drain_buf_until_flush(Some(ConcurrentResponse::DidFlush(Ok(())))),
        DrainStep::Done
    ));

    let zones = buffer.uncommitted_writes(vec![]);
    assert_eq!(zones.len(), 2);
    assert_eq!(zones[0].committed_length, 7);
    assert_eq!(zones[1].ident, Some(9));
    assert_eq!(zones[1].length, 50);
}

#[test]
fn recovery_entries_compare() {
    let a = RecoveryEntry::new(&named(&["a"]), &named(&["root", "a"]), 512);
    let same_file = RecoveryEntry::new(&named(&["a"]), &named(&["root", "a"]), 1536);
    let other = RecoveryEntry::new(&named(&["b"]), &named(&["root", "a"]), 512);

    assert!(a.is_same_file(&same_file));
    assert!(!a.is_same_file(&other));
    assert!(a == a.clone());
    assert!(a != same_file);
    assert!(a != other);
}

#[test]
fn recovery_offsets() {
    let entry = RecoveryEntry::new(&named(&["a"]), &named(&["a"]), 512);

    assert_eq!(recovery_offset(&zone_of(Some(entry.clone()), 2000, 1512), 5000), Some(1000));
    assert_eq!(recovery_offset(&zone_of(Some(entry.clone()), 2000, 512), 5000), Some(0));
    assert_eq!(recovery_offset(&zone_of(Some(entry.clone()), 2000, 100), 5000), Some(0));
    assert_eq!(recovery_offset(&zone_of(Some(entry.clone()), 9000, 9000), 5000), Some(5000));
    assert_eq!(recovery_offset(&zone_of(None, 2000, 1512), 5000), None);
}

#[test]
fn continuation_headers() {
    let posix = continuation_header(header(5000), &named(&["as", "given"]), 5000, 1000, TarFormat::POSIX);
    assert_eq!(posix.file_size, 4000);
    assert_eq!(posix.recovery_path, Some(named(&["as", "given"])));
    assert_eq!(posix.recovery_total_size, Some(5000));
    assert_eq!(posix.recovery_seek_offset, Some(1000));
    assert_eq!(posix.path, named(&["data", "file"]));
    assert_eq!(posix.unix_mode, 0o600);

    let ustar = continuation_header(header(5000), &named(&["as", "given"]), 5000, 1000, TarFormat::USTAR);
    assert_eq!(ustar.file_size, 4000);
    assert_eq!(ustar.recovery_path, None);
    assert_eq!(ustar.recovery_total_size, None);
    assert_eq!(ustar.recovery_seek_offset, None);
}

#[test]
fn recovery_plans() {
    let entry = RecoveryEntry::new(&named(&["as", "given"]), &named(&["to", "open"]), 512);
    let lost = zone_of(Some(entry.clone()), 3000, 2512);

    let step = plan_recovery(&lost, header(5000), 5000, TarFormat::USTAR).unwrap().unwrap();
    assert_eq!(step.offset, 2000);
    assert_eq!(step.header.file_size, 3000);
    assert_eq!(step.encoded_header.len(), 512);
    assert_eq!(step.ident.header_length, 512);
    assert!(step.ident.is_same_file(&entry));
    assert!(step.has_data);
    assert_eq!(&step.encoded_header[124..136], b"00000005670\0");

    let mut directory = header(0);
    directory.file_type = TarFileType::Directory;
    let step = plan_recovery(&lost, directory, 0, TarFormat::POSIX).unwrap().unwrap();
    assert_eq!(step.offset, 0);
    assert!(!step.has_data);
    assert_eq!(step.header.recovery_seek_offset, Some(0));

    assert!(plan_recovery(&zone_of(None, 10, 0), header(5), 5, TarFormat::POSIX).unwrap().is_none());

    let mut old = header(5000);
    old.mtime = Some(-1);
    assert!(plan_recovery(&lost, old, 5000, TarFormat::POSIX).is_err());
}

#[test]
fn leftover_zones_follow_what_the_sink_reports() {
    let a = RecoveryEntry::new(&named(&["a"]), &named(&["a"]), 512);
    let b = RecoveryEntry::new(&named(&["b"]), &named(&["b"]), 512);
    let c = RecoveryEntry::new(&named(&["c"]), &named(&["c"]), 512);
    let lost = vec![zone_of(Some(a), 1, 0), zone_of(Some(b.clone()), 2, 1), zone_of(Some(c.clone()), 3, 0)];
    let reported = vec![zone_of(Some(b.clone()), 20, 5)];

    let zones = leftover_zones(reported, &lost, 2);
    assert_eq!(zones.len(), 2);
    assert!(zones[0].ident == Some(b) && zones[0].length == 20);
    assert!(zones[1].ident == Some(c) && zones[1].length == 3);

    assert_eq!(leftover_zones(vec![], &lost, 3).len(), 0);
    assert_eq!(leftover_zones(vec![], &lost, 0).len(), 3);
}

#[test]
fn labels() {
    let empty = TarLabel::new(77);
    assert_eq!(empty.nabla, 77);
    assert!(empty.label.is_none() && empty.recovery_path.is_none());

    let entry = RecoveryEntry::new(
        &[PathPart::CurDir, PathPart::Normal("x".to_string()), PathPart::ParentDir, PathPart::Normal("y".to_string())],
        &named(&["abs", "y"]),
        512,
    );
    let label = TarLabel::with_recovery(&zone_of(Some(entry.clone()), 2000, 1512), 5, TarFileType::FileStream, 1500);
    assert_eq!(label.nabla, 5);
    assert_eq!(label.recovery_path, Some(named(&["y"])));
    assert!(matches!(label.recovery_file_type, Some(TarFileType::FileStream)));
    assert_eq!(label.recovery_remaining_size, Some(500));
    assert_eq!(label.recovery_seek_offset, Some(1000));

    let shrunk = TarLabel::with_recovery(&zone_of(Some(entry), 2000, 1512), 5, TarFileType::FileStream, 300);
    assert_eq!(shrunk.recovery_remaining_size, Some(0));
    assert_eq!(shrunk.recovery_seek_offset, Some(300));

    let slack = TarLabel::with_recovery(&zone_of(None, 2000, 1512), 5, TarFileType::FileStream, 300);
    assert!(slack.recovery_path.is_none() && slack.recovery_seek_offset.is_none());
}

#[test]
fn abstract_header_takes_what_the_file_system_tells() {
    let info = FileInfo {
        kind: EntryKind::File,
        unix_mode: 0o100644,
        unix_uid: 501,
        unix_gid: 20,
        unix_uname: "me".to_string(),
        unix_gname: "staff".to_string(),
        size: 1234,
        mtime: Some(1_600_000_000),
        atime: None,
        birthtime: Some(-3),
    };
    let path = vec![
        PathPart::CurDir,
        PathPart::Normal("a".to_string()),
        PathPart::ParentDir,
        PathPart::Normal("b".to_string()),
    ];

    let header = TarHeader::abstract_header_for_file(&path, &info).unwrap();

    assert_eq!(header.path, named(&["b"]));
    assert_eq!(header.unix_mode, 0o100644);
    assert_eq!((header.unix_uid, header.unix_gid), (501, 20));
    assert_eq!((header.unix_uname.as_str(), header.unix_gname.as_str()), ("me", "staff"));
    assert_eq!(header.file_size, 1234);
    assert_eq!((header.mtime, header.atime, header.birthtime), (Some(1_600_000_000), None, Some(-3)));
    assert!(matches!(header.file_type, TarFileType::FileStream));
    assert_eq!((header.unix_devmajor, header.unix_devminor), (0, 0));
    assert!(header.symlink_path.is_none() && header.recovery_path.is_none());
    assert!(header.recovery_total_size.is_none() && header.recovery_seek_offset.is_none());

    let mut socket = info.clone();
    socket.kind = EntryKind::Socket;
    assert_eq!(
        TarHeader::abstract_header_for_file(&path, &socket).err(),
        Some(FileTypeError::SocketNotArchivable)
    );
}

#[test]
fn tape_seek_plans() {
    assert_eq!(
        seek_plan(TapeUnit::Block, TapeSeek::Start(7)),
        vec![TapeStep { op: TapeOp::SeekBlock, count: 7 }]
    );
    assert_eq!(
        seek_plan(TapeUnit::Filemark, TapeSeek::Start(2)),
        vec![
            TapeStep { op: TapeOp::Rewind, count: 1 },
            TapeStep { op: TapeOp::ForwardFilemarks, count: 2 }
        ]
    );
    assert_eq!(
        seek_plan(TapeUnit::Setmark, TapeSeek::Start(0)),
        vec![
            TapeStep { op: TapeOp::Rewind, count: 1 },
            TapeStep { op: TapeOp::ForwardSetmarks, count: 0 }
        ]
    );
    assert_eq!(
        seek_plan(TapeUnit::Filemark, TapeSeek::Current(3)),
        vec![TapeStep { op: TapeOp::ForwardFilemarks, count: 3 }]
    );
    assert_eq!(
        seek_plan(TapeUnit::Filemark, TapeSeek::Current(-1)),
        vec![TapeStep { op: TapeOp::BackwardFilemarks, count: -1 }]
    );
    assert_eq!(
        seek_plan(TapeUnit::Block, TapeSeek::Current(0)),
        vec![TapeStep { op: TapeOp::BackwardBlocks, count: 0 }]
    );
    assert_eq!(
        seek_plan(TapeUnit::Setmark, TapeSeek::End(0)),
        vec![
            TapeStep { op: TapeOp::EndOfData, count: 0 },
            TapeStep { op: TapeOp::BackwardSetmarks, count: 0 }
        ]
    );
    assert_eq!(
        seek_plan(TapeUnit::Block, TapeSeek::Start(0x1_0000_0005)),
        vec![TapeStep { op: TapeOp::SeekBlock, count: 5 }]
    );
}

#[test]
fn driver_closes_after_the_last_entry() {
    assert_eq!(
        step(DriverState::Serialize, DriverEvent::EntriesDone, false),
        (DriverState::Finish, DriverAction::CloseArchive)
    );
    assert_eq!(
        step(DriverState::Finish, DriverEvent::EntriesDone, true),
        (DriverState::Finish, DriverAction::Stop)
    );
}

#[test]
fn driver_recovers_only_when_spanning() {
    assert_eq!(
        step(DriverState::Serialize, DriverEvent::ShortWrite, true),
        (DriverState::Recover, DriverAction::ExchangeVolume)
    );
    assert_eq!(
        step(DriverState::Serialize, DriverEvent::ShortWrite, false),
        (DriverState::Aborted, DriverAction::ReportFull)
    );
    assert_eq!(
        step(DriverState::Recover, DriverEvent::RecoveryTorn, true),
        (DriverState::Recover, DriverAction::ExchangeVolume)
    );
    assert_eq!(
        step(DriverState::Recover, DriverEvent::Recovered, true),
        (DriverState::Serialize, DriverAction::WriteEntries)
    );
    assert_eq!(
        step(DriverState::Recover, DriverEvent::RecoveryFailed, true),
        (DriverState::Aborted, DriverAction::Stop)
    );
}

#[test]
fn driver_skips_an_entry_that_failed() {
    assert_eq!(
        step(DriverState::Serialize, DriverEvent::EntryFailed, true),
        (DriverState::Serialize, DriverAction::SkipEntry)
    );
}

#[test]
fn driver_stops_without_closing_when_cancelled() {
    assert_eq!(
        step(DriverState::Recover, DriverEvent::OperatorCancelled, true),
        (DriverState::Cancelled, DriverAction::Stop)
    );
    for event in [
        DriverEvent::EntriesDone,
        DriverEvent::ShortWrite,
        DriverEvent::EntryFailed,
        DriverEvent::Recovered,
        DriverEvent::RecoveryTorn,
        DriverEvent::RecoveryFailed,
        DriverEvent::OperatorCancelled,
    ] {
        assert_eq!(
            step(DriverState::Cancelled, event, true),
            (DriverState::Cancelled, DriverAction::Stop)
        );
        assert_eq!(
            step(DriverState::Aborted, event, true),
            (DriverState::Aborted, DriverAction::Stop)
        );
    }
}

#[test]
fn prompt_answers() {
    assert_eq!(parse_answer("?\n"), PromptAnswer::Help);
    assert_eq!(parse_answer("q\n"), PromptAnswer::Cancel);
    assert_eq!(parse_answer("y\r\n"), PromptAnswer::Reopen);
    assert_eq!(parse_answer("y"), PromptAnswer::Reopen);
    assert_eq!(parse_answer("n /dev/nst1\n"), PromptAnswer::NewFile(b"/dev/nst1".to_vec()));
    assert_eq!(parse_answer("n a b\r\n"), PromptAnswer::NewFile(b"a b".to_vec()));
    assert_eq!(parse_answer("n \n"), PromptAnswer::Invalid);
    assert_eq!(parse_answer("n\n"), PromptAnswer::Invalid);
    assert_eq!(parse_answer("\n"), PromptAnswer::Invalid);
    assert_eq!(parse_answer(""), PromptAnswer::Invalid);
    assert_eq!(parse_answer("yes\n"), PromptAnswer::Invalid);
    assert_eq!(parse_answer(" y\n"), PromptAnswer::Invalid);
    assert_eq!(parse_answer("Q\n"), PromptAnswer::Invalid);
}

/// A sink that takes two bytes of each write and counts the writes.
struct GreedySink {
    writes: usize,
    taken: Vec<u8>,
}

impl ByteSink for GreedySink {
    fn write(&mut self, buf: &[u8]) -> Result<usize, SinkError> {
        self.writes += 1;
        let count = buf.len().min(2);
        self.taken.extend_from_slice(&buf[..count]);
        Ok(count)
    }

    fn flush(&mut self) -> Result<(), SinkError> {
        Ok(())
    }
}

impl RecoverableWrite<u64> for GreedySink {
    fn uncommitted_writes(&self) -> Vec<DataZone<u64>> {
        Vec::new()
    }
}

#[test]
fn worker_writes_all_of_a_command() {
    let mut sink = GreedySink { writes: 0, taken: vec![] };

    let wrote = command_task_write(&mut sink, ConcurrentCommand::DoWriteAll(vec![1, 2, 3]));
    assert!(matches!(wrote, ConcurrentResponse::DidWriteAll(Ok(3))));
    assert_eq!(sink.writes, 2);
    assert_eq!(sink.taken, vec![1, 2, 3]);

    let whole = command_task_write(&mut sink, ConcurrentCommand::DoWriteAll(vec![4, 5]));
    assert!(matches!(whole, ConcurrentResponse::DidWriteAll(Ok(2))));
    assert_eq!(sink.writes, 3);

    let none = command_task_write(&mut sink, ConcurrentCommand::DoWriteAll(vec![]));
    assert!(matches!(none, ConcurrentResponse::DidWriteAll(Ok(0))));
    assert_eq!(sink.writes, 3);
}

#[test]
fn buffer_gives_the_command_for_a_write() {
    let mut buffer: ConcurrentWriteBuffer<u64> = ConcurrentWriteBuffer::new(1000);
    let _ = buffer.begin_data_zone(1);

    let command = buffer.write_command(&[1, 2, 3]);

    match command {
        ConcurrentCommand::DoWriteAll(data) => assert_eq!(data, vec![1, 2, 3]),
        _ => panic!("a write gives the command to write"),
    }
    assert_eq!(buffer.buffered_size(), 3);
    let zones = buffer.uncommitted_writes(vec![]);
    assert_eq!(zones.len(), 1);
    assert_eq!(zones[0].length, 3);
    assert_eq!(zones[0].uncommitted_length, 3);
}

/// A sink that counts its flushes and fails each of them.
struct BrokenFlush {
    flushes: usize,
}

impl ByteSink for BrokenFlush {
    fn write(&mut self, buf: &[u8]) -> Result<usize, SinkError> {
        Ok(buf.len())
    }

    fn flush(&mut self) -> Result<(), SinkError> {
        self.flushes += 1;
        Err(SinkError::WriteZero)
    }
}

impl RecoverableWrite<u64> for BrokenFlush {
    fn uncommitted_writes(&self) -> Vec<DataZone<u64>> {
        Vec::new()
    }
}

#[test]
fn worker_flushes_the_sink_and_tells_how_it_ended() {
    let mut sink = BrokenFlush { flushes: 0 };

    let answer = command_task_write(&mut sink, ConcurrentCommand::DoFlush);

    assert!(matches!(answer, ConcurrentResponse::DidFlush(Err(SinkError::WriteZero))));
    assert_eq!(sink.flushes, 1);
}

#[test]
fn duration_from_the_standard_library() {
    assert_eq!(HRDuration::from(Duration::new(61, 1_000_000)).to_string(), "1m1s1ms");
    assert_eq!(HRDuration::from(Duration::new(0, 0)).to_string(), "");
    assert_eq!(HRDuration::from(Duration::new(1, 1_999_999_999)).to_string(), "2s999ms999\u{3bc}s999ns");
}

#[test]
fn partial_results_are_ordered_by_how_much_was_done() {
    let complete: PartialResult<u8, u8> = PartialResult::Complete(1);
    let more: PartialResult<u8, u8> = PartialResult::Complete(2);
    let partial: PartialResult<u8, u8> = PartialResult::Partial(0, 0);
    let failure: PartialResult<u8, u8> = PartialResult::Failure(0);

    assert!(complete < more);
    assert!(more < partial);
    assert!(partial < failure);
    assert_eq!(complete.max(failure), failure);
}
