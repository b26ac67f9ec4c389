use rapidarchive::blocking::BlockingWriter;
use rapidarchive::spanning::{ByteSink, MemorySink, RecoverableWrite, UnbufferedWriter};


#[test]
fn blocking_blocking_factor_1_block_passthrough() {
    let mut blk : BlockingWriter<_, u64> = BlockingWriter::new_with_factor(MemorySink::new(vec![]), 1); //1 tar record, or 512 bytes
    
    blk.write_all(&vec![0; 512]).unwrap();
    blk.write_all(&vec![1; 512]).unwrap();
    
    assert_eq!(blk.as_inner_writer().get_ref().len(), 1024);
    assert_eq!(&blk.as_inner_writer().get_ref()[0..512], vec![0 as u8; 512].as_slice());
    assert_eq!(&blk.as_inner_writer().get_ref()[512..], vec![1 as u8; 512].as_slice());
}

#[test]
fn blocking_blocking_factor_1_record_splitting() {
    let mut blk : BlockingWriter<_, u64> = BlockingWriter::new_with_factor(MemorySink::new(vec![]), 1); //1 tar record, or 512 bytes
    
    blk.write_all(&vec![0; 384]).unwrap();
    blk.write_all(&vec![1; 384]).unwrap();
    
    assert_eq!(blk.as_inner_writer().get_ref().len(), 512);
    assert_eq!(&blk.as_inner_writer().get_ref()[0..384], vec![0; 384].as_slice());
    assert_eq!(&blk.as_inner_writer().get_ref()[384..], vec![1; 128].as_slice());
    
    blk.write_all(&vec![2; 384]).unwrap();
    blk.flush().unwrap();
    
    assert_eq!(blk.as_inner_writer().get_ref().len(), 1536);
    assert_eq!(&blk.as_inner_writer().get_ref()[0..384], vec![0; 384].as_slice());
    assert_eq!(&blk.as_inner_writer().get_ref()[384..768], vec![1; 384].as_slice());
    assert_eq!(&blk.as_inner_writer().get_ref()[768..1152], vec![2; 384].as_slice());
    assert_eq!(&blk.as_inner_writer().get_ref()[1152..], vec![0; 384].as_slice());
}

#[test]
fn blocking_blocking_factor_1_record_splitting_shortcircuit() {
    let mut blk : BlockingWriter<_, u64> = BlockingWriter::new_with_factor(MemorySink::new(vec![]), 1); //1 tar record, or 512 bytes
    
    blk.write_all(&vec![0; 384]).unwrap();
    blk.write_all(&vec![1; 1024]).unwrap();
    
    assert_eq!(blk.as_inner_writer().get_ref().len(), 1024);
    assert_eq!(&blk.as_inner_writer().get_ref()[0..384], vec![0; 384].as_slice());
    assert_eq!(&blk.as_inner_writer().get_ref()[384..], vec![1; 640].as_slice());
    
    blk.write_all(&vec![2; 2048]).unwrap();
    blk.flush().unwrap();
    
    assert_eq!(blk.as_inner_writer().get_ref().len(), 3584);
    assert_eq!(&blk.as_inner_writer().get_ref()[0..384], vec![0; 384].as_slice());
    assert_eq!(&blk.as_inner_writer().get_ref()[384..1408], vec![1; 1024].as_slice());
    assert_eq!(&blk.as_inner_writer().get_ref()[1408..3456], vec![2; 2048].as_slice());
    assert_eq!(&blk.as_inner_writer().get_ref()[3456..], vec![0; 128].as_slice());
}

#[test]
fn blocking_blocking_factor_4_block_zone_tracking() {
    let mut blk: BlockingWriter<_, &str> = BlockingWriter::new_with_factor(UnbufferedWriter::wrap(MemorySink::new(vec![])), 4);
    let ident1 = "ident1";
    let ident2 = "ident2";

    blk.begin_data_zone(ident1);
    blk.write_all(&vec![0; 512]).unwrap();
    blk.begin_data_zone(ident2);
    blk.write_all(&vec![1; 512]).unwrap();

    let zones = blk.uncommitted_writes();

    assert_eq!(zones.len(), 2);
    assert_eq!(zones[0].ident, Some(ident1));
    assert_eq!(zones[0].length, 512);
    assert_eq!(zones[0].uncommitted_length, 512);
    assert_eq!(zones[0].committed_length, 0);
    assert_eq!(zones[1].ident, Some(ident2));
    assert_eq!(zones[1].length, 512);
    assert_eq!(zones[1].uncommitted_length, 512);
    assert_eq!(zones[1].committed_length, 0);

    blk.flush().unwrap();

    let zones_2 = blk.uncommitted_writes();

    assert_eq!(zones_2.len(), 0);

    assert_eq!(blk.as_inner_writer().as_inner_writer().get_ref().len(), 2048);
    assert_eq!(&blk.as_inner_writer().as_inner_writer().get_ref()[0..512], vec![0 as u8; 512].as_slice());
    assert_eq!(&blk.as_inner_writer().as_inner_writer().get_ref()[512..1024], vec![1 as u8; 512].as_slice());
    assert_eq!(&blk.as_inner_writer().as_inner_writer().get_ref()[1024..], vec![0 as u8; 1024].as_slice());
}
