use rapidarchive::spanning::{DataZone, DataZoneStream};


#[test]
fn datazone_buffer() {
    let mut dz = DataZone::new(0);

    dz.write_buffered(1024);
    let commit_result = dz.write_committed(768);

    assert_eq!(dz.length, 1024);
    assert_eq!(dz.committed_length, 768);
    assert_eq!(dz.uncommitted_length, 256);
    assert_eq!(commit_result, None);
}

#[test]
fn datazone_overhang() {
    let mut dz = DataZone::new(0);

    dz.write_buffered(1024);
    let commit_result = dz.write_committed(1536);

    assert_eq!(dz.length, 1024);
    assert_eq!(dz.committed_length, 1024);
    assert_eq!(dz.uncommitted_length, 0);
    assert_eq!(commit_result, Some(512));
}

#[test]
fn datazone_overhang_exact() {
    let mut dz = DataZone::new(0);

    dz.write_buffered(1536);
    let commit_result = dz.write_committed(1536);

    assert_eq!(dz.length, 1536);
    assert_eq!(dz.committed_length, 1536);
    assert_eq!(dz.uncommitted_length, 0);
    assert_eq!(commit_result, None);
}

#[test]
fn datazone_stream() {
    let mut dzs = DataZoneStream::new();

    dzs.begin_data_zone(0);
    dzs.write_buffered(512);
    dzs.begin_data_zone(1);
    dzs.write_buffered(1024);
    dzs.begin_data_zone(2);
    dzs.write_buffered(768);

    let commit_result = dzs.write_committed(1024);
    let uncommitted_zones = dzs.uncommitted_writes(None);

    assert_eq!(commit_result, None);
    assert_eq!(uncommitted_zones.len(), 2);
    assert_eq!(uncommitted_zones[0].ident, Some(1));
    assert_eq!(uncommitted_zones[0].length, 1024);
    assert_eq!(uncommitted_zones[0].committed_length, 512);
    assert_eq!(uncommitted_zones[0].uncommitted_length, 512);
    assert_eq!(uncommitted_zones[1].ident, Some(2));
    assert_eq!(uncommitted_zones[1].length, 768);
    assert_eq!(uncommitted_zones[1].committed_length, 0);
    assert_eq!(uncommitted_zones[1].uncommitted_length, 768);
}

#[test]
fn datazone_stream_2x() {
    let mut dzs = DataZoneStream::new();

    dzs.begin_data_zone(0);
    dzs.write_buffered(512);
    dzs.begin_data_zone(1);
    dzs.write_buffered(1024);
    dzs.begin_data_zone(2);
    dzs.write_buffered(768);

    let commit_result = dzs.write_committed(2048);
    let uncommitted_zones = dzs.uncommitted_writes(None);

    assert_eq!(commit_result, None);
    assert_eq!(uncommitted_zones.len(), 1);
    assert_eq!(uncommitted_zones[0].ident, Some(2));
    assert_eq!(uncommitted_zones[0].length, 768);
    assert_eq!(uncommitted_zones[0].committed_length, 512);
    assert_eq!(uncommitted_zones[0].uncommitted_length, 256);
}

#[test]
fn datazone_stream_overhang() {
    let mut dzs = DataZoneStream::new();

    dzs.begin_data_zone(0);
    dzs.write_buffered(512);
    dzs.begin_data_zone(1);
    dzs.write_buffered(1024);
    dzs.begin_data_zone(2);
    dzs.write_buffered(768);

    let commit_result = dzs.write_committed(4096);
    let uncommitted_zones = dzs.uncommitted_writes(None);

    assert_eq!(commit_result, Some(1792));
    assert_eq!(uncommitted_zones.len(), 1);
    assert_eq!(uncommitted_zones[0].ident, Some(2));
    assert_eq!(uncommitted_zones[0].length, 768);
    assert_eq!(uncommitted_zones[0].committed_length, 768);
    assert_eq!(uncommitted_zones[0].uncommitted_length, 0);
}

#[test]
fn datazone_stream_merge() {
    let mut dzs_behind = DataZoneStream::new();

    dzs_behind.begin_data_zone(0);
    dzs_behind.write_buffered(512);
    dzs_behind.begin_data_zone(1);
    dzs_behind.write_buffered(1024);
    dzs_behind.begin_data_zone(2);
    dzs_behind.write_buffered(768);

    let commit_result_behind = dzs_behind.write_committed(1024);

    let mut dzs = DataZoneStream::new();

    dzs.begin_data_zone(0);
    dzs.write_buffered(512);
    dzs.begin_data_zone(1);
    dzs.write_buffered(1024);
    dzs.begin_data_zone(2);
    dzs.write_buffered(2048);

    let commit_result = dzs.write_committed(4096);

    let uncommitted_zones_behind = dzs_behind.uncommitted_writes(None);

    assert_eq!(commit_result_behind, None);
    assert_eq!(uncommitted_zones_behind.len(), 2);
    assert_eq!(uncommitted_zones_behind[0].ident, Some(1));
    assert_eq!(uncommitted_zones_behind[0].length, 1024);
    assert_eq!(uncommitted_zones_behind[0].committed_length, 512);
    assert_eq!(uncommitted_zones_behind[0].uncommitted_length, 512);
    assert_eq!(uncommitted_zones_behind[1].ident, Some(2));
    assert_eq!(uncommitted_zones_behind[1].length, 768);
    assert_eq!(uncommitted_zones_behind[1].committed_length, 0);
    assert_eq!(uncommitted_zones_behind[1].uncommitted_length, 768);

    let uncommitted_zones = dzs.uncommitted_writes(Some(uncommitted_zones_behind));
    
    assert_eq!(commit_result, Some(512));
    assert_eq!(uncommitted_zones.len(), 2);
    assert_eq!(uncommitted_zones[0].ident, Some(1));
    assert_eq!(uncommitted_zones[0].length, 1024);
    assert_eq!(uncommitted_zones[0].committed_length, 512);
    assert_eq!(uncommitted_zones[0].uncommitted_length, 512);
    assert_eq!(uncommitted_zones[1].ident, Some(2));
    assert_eq!(uncommitted_zones[1].length, 2048);
    assert_eq!(uncommitted_zones[1].committed_length, 0);
    assert_eq!(uncommitted_zones[1].uncommitted_length, 2048);
}

#[test]
fn datazone_stream_overslack() {
    let mut dzs = DataZoneStream::new();

    dzs.begin_data_zone(0);
    dzs.write_buffered(512);
    dzs.end_data_zone();
    dzs.write_buffered(512);
    dzs.begin_data_zone(1);
    dzs.write_buffered(1024);
    dzs.begin_data_zone(2);
    dzs.write_buffered(768);

    let commit_result = dzs.write_committed(4096);
    let uncommitted_zones = dzs.uncommitted_writes(None);

    assert_eq!(commit_result, Some(1280));
    assert_eq!(uncommitted_zones.len(), 1);
    assert_eq!(uncommitted_zones[0].ident, Some(2));
    assert_eq!(uncommitted_zones[0].length, 768);
    assert_eq!(uncommitted_zones[0].committed_length, 768);
    assert_eq!(uncommitted_zones[0].uncommitted_length, 0);
}

#[test]
fn datazone_stream_mergeslack() {
    let mut dzs_behind = DataZoneStream::new();

    dzs_behind.begin_data_zone(0);
    dzs_behind.write_buffered(512);
    dzs_behind.begin_data_zone(1);
    dzs_behind.write_buffered(1024);
    dzs_behind.end_data_zone();
    dzs_behind.write_buffered(512);
    dzs_behind.begin_data_zone(2);
    dzs_behind.write_buffered(768);

    let commit_result_behind = dzs_behind.write_committed(1024);

    let mut dzs = DataZoneStream::new();

    dzs.begin_data_zone(0);
    dzs.write_buffered(512);
    dzs.begin_data_zone(1);
    dzs.write_buffered(1024);
    dzs.end_data_zone();
    dzs.write_buffered(512);
    dzs.begin_data_zone(2);
    dzs.write_buffered(1536);

    let commit_result = dzs.write_committed(4096);

    let uncommitted_zones_behind = dzs_behind.uncommitted_writes(None);

    assert_eq!(commit_result_behind, None);
    assert_eq!(uncommitted_zones_behind.len(), 3);
    assert_eq!(uncommitted_zones_behind[0].ident, Some(1));
    assert_eq!(uncommitted_zones_behind[0].length, 1024);
    assert_eq!(uncommitted_zones_behind[0].committed_length, 512);
    assert_eq!(uncommitted_zones_behind[0].uncommitted_length, 512);
    assert_eq!(uncommitted_zones_behind[1].ident, None);
    assert_eq!(uncommitted_zones_behind[1].length, 512);
    assert_eq!(uncommitted_zones_behind[1].committed_length, 0);
    assert_eq!(uncommitted_zones_behind[1].uncommitted_length, 512);
    assert_eq!(uncommitted_zones_behind[2].ident, Some(2));
    assert_eq!(uncommitted_zones_behind[2].length, 768);
    assert_eq!(uncommitted_zones_behind[2].committed_length, 0);
    assert_eq!(uncommitted_zones_behind[2].uncommitted_length, 768);

    let uncommitted_zones = dzs.uncommitted_writes(Some(uncommitted_zones_behind));
    
    assert_eq!(commit_result, Some(512));
    assert_eq!(uncommitted_zones.len(), 3);
    assert_eq!(uncommitted_zones[0].ident, Some(1));
    assert_eq!(uncommitted_zones[0].length, 1024);
    assert_eq!(uncommitted_zones[0].committed_length, 512);
    assert_eq!(uncommitted_zones[0].uncommitted_length, 512);
    assert_eq!(uncommitted_zones[1].ident, None);
    assert_eq!(uncommitted_zones[1].length, 512);
    assert_eq!(uncommitted_zones[1].committed_length, 0);
    assert_eq!(uncommitted_zones[1].uncommitted_length, 512);
    assert_eq!(uncommitted_zones[2].ident, Some(2));
    assert_eq!(uncommitted_zones[2].length, 1536);
    assert_eq!(uncommitted_zones[2].committed_length, 0);
    assert_eq!(uncommitted_zones[2].uncommitted_length, 1536);
}
