use rand::Rng;
use rapidarchive::result::PartialResult;
use rapidarchive::spanning::{ByteSink, LimitingWriter, MemorySink, SinkError};
use rapidarchive::stream::{stream, ByteSource, MemorySource};


#[test]
fn stream_data() {
    let mut data = vec![0; 1024];
    let mut rng = rand::thread_rng();

    for d in data.iter_mut() {
        *d = rng.gen();
    }

    let mut source = MemorySource::new(data.clone());
    let mut sink = MemorySink::new(vec![]);

    let result = stream(&mut source, &mut sink, None);

    assert_eq!(result.complete().unwrap(), data.len() as u64);
    assert_eq!(sink.get_ref().len(), data.len());
    assert_eq!(sink.get_ref(), &data);
}

/// A sink that takes a number of bytes and then reports an error.
struct FailingSink {
    taken: Vec<u8>,
    room: usize,
}

impl ByteSink for FailingSink {
    fn write(&mut self, buf: &[u8]) -> Result<usize, SinkError> {
        if self.room == 0 {
            return Err(SinkError::DeviceIO(std::io::Error::new(
                std::io::ErrorKind::Other,
                "device failed",
            )));
        }
        let count = buf.len().min(self.room);
        self.taken.extend_from_slice(&buf[..count]);
        self.room -= count;
        Ok(count)
    }

    fn flush(&mut self) -> Result<(), SinkError> {
        Ok(())
    }
}

#[test]
fn stream_copies_in_small_pieces() {
    let data: Vec<u8> = (0..10000u32).map(|i| (i % 251) as u8).collect();
    let mut source = MemorySource::new(data.clone());
    let mut sink = MemorySink::new(vec![]);

    let result = stream(&mut source, &mut sink, Some(7));

    assert!(matches!(result, PartialResult::Complete(10000)));
    assert_eq!(sink.get_ref(), &data);
}

#[test]
fn stream_of_nothing_is_complete() {
    let mut source = MemorySource::new(vec![]);
    let mut sink = MemorySink::new(vec![1, 2, 3]);

    let result = stream(&mut source, &mut sink, None);

    assert_eq!(result.complete().unwrap(), 0);
    assert_eq!(sink.get_ref(), &vec![1, 2, 3]);
}

#[test]
fn stream_reports_what_a_full_sink_took() {
    let data = vec![9u8; 4096];
    let mut source = MemorySource::new(data);
    let mut sink = LimitingWriter::wrap(MemorySink::new(vec![]), 1024);

    let result = stream(&mut source, &mut sink, Some(512));

    assert_eq!(result.ok(), Some(1024));
    assert_eq!(sink.as_inner_writer().get_ref(), &vec![9u8; 1024]);
}

#[test]
fn stream_full_sink_is_write_zero() {
    let mut source = MemorySource::new(vec![9u8; 4096]);
    let mut sink = LimitingWriter::wrap(MemorySink::new(vec![]), 1024);

    let result = stream(&mut source, &mut sink, Some(512));

    assert!(matches!(result, PartialResult::Partial(1024, SinkError::WriteZero)));
}

#[test]
fn stream_hands_on_the_error_of_the_sink() {
    let mut source = MemorySource::new(vec![5u8; 100]);
    let mut sink = FailingSink { taken: vec![], room: 30 };

    let result = stream(&mut source, &mut sink, Some(20));

    assert!(matches!(result, PartialResult::Partial(30, SinkError::DeviceIO(_))));
    assert_eq!(sink.taken, vec![5u8; 30]);
}

#[test]
fn memory_source_hands_out_in_order() {
    let mut source = MemorySource::new(vec![1, 2, 3, 4, 5]);

    assert_eq!(source.read(2).unwrap(), vec![1, 2]);
    assert_eq!(source.read(2).unwrap(), vec![3, 4]);
    assert_eq!(source.read(2).unwrap(), vec![5]);
    assert_eq!(source.read(2).unwrap(), Vec::<u8>::new());
}

#[test]
fn stream_in_pieces_of_nothing_copies_nothing() {
    let mut source = MemorySource::new(vec![1, 2, 3]);
    let mut sink = MemorySink::new(vec![]);

    let result = stream(&mut source, &mut sink, Some(0));

    assert!(matches!(result, PartialResult::Complete(0)));
    assert_eq!(sink.get_ref().len(), 0);
    assert_eq!(source.read(3).unwrap(), vec![1, 2, 3]);
}

/// A source that hands out a number of bytes and then fails.
struct FailingSource {
    left: usize,
}

impl ByteSource for FailingSource {
    fn read(&mut self, max: usize) -> Result<Vec<u8>, SinkError> {
        if self.left == 0 {
            return Err(SinkError::WorkerTerminated);
        }
        let count = max.min(self.left);
        self.left -= count;
        Ok(vec![3u8; count])
    }
}

#[test]
fn stream_hands_on_the_error_of_the_source() {
    let mut source = FailingSource { left: 10 };
    let mut sink = MemorySink::new(vec![]);

    let result = stream(&mut source, &mut sink, Some(4));

    assert!(matches!(result, PartialResult::Partial(10, SinkError::WorkerTerminated)));
    assert_eq!(sink.get_ref(), &vec![3u8; 10]);
}

/// A sink that notes the length of every slice that it is offered, and takes
/// three bytes of each at most.
struct NotingSink {
    offered: Vec<usize>,
    taken: Vec<u8>,
}

impl ByteSink for NotingSink {
    fn write(&mut self, buf: &[u8]) -> Result<usize, SinkError> {
        self.offered.push(buf.len());
        let count = buf.len().min(3);
        self.taken.extend_from_slice(&buf[..count]);
        Ok(count)
    }

    fn flush(&mut self) -> Result<(), SinkError> {
        panic!("a copy does not flush");
    }
}

#[test]
fn stream_offers_what_is_left_of_each_piece() {
    let data: Vec<u8> = (0..10u8).collect();
    let mut source = MemorySource::new(data.clone());
    let mut sink = NotingSink { offered: vec![], taken: vec![] };

    let result = stream(&mut source, &mut sink, Some(4));

    assert!(matches!(result, PartialResult::Complete(10)));
    assert_eq!(sink.offered, vec![4, 1, 4, 1, 2]);
    assert_eq!(sink.taken, data);
}

/// A source of seven bytes that notes how many bytes each read asked for.
struct NotingSource {
    asked: Vec<usize>,
    left: usize,
}

impl ByteSource for NotingSource {
    fn read(&mut self, max: usize) -> Result<Vec<u8>, SinkError> {
        self.asked.push(max);
        let count = max.min(self.left);
        self.left -= count;
        Ok(vec![8u8; count])
    }
}

#[test]
fn stream_asks_for_pieces_of_the_given_length() {
    let mut source = NotingSource { asked: vec![], left: 7 };
    let mut sink = MemorySink::new(vec![]);

    let result = stream(&mut source, &mut sink, Some(3));

    assert!(matches!(result, PartialResult::Complete(7)));
    assert_eq!(source.asked, vec![3, 3, 3, 3]);
    assert_eq!(sink.get_ref(), &vec![8u8; 7]);
}

#[test]
fn stream_asks_for_pieces_of_the_usual_length() {
    let mut source = NotingSource { asked: vec![], left: 6000 };
    let mut sink = MemorySink::new(vec![]);

    let result = stream(&mut source, &mut sink, None);

    assert!(matches!(result, PartialResult::Complete(6000)));
    assert_eq!(source.asked, vec![5120, 5120, 5120]);
}
