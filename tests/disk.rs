use psutil_disk::counters::COUNTER_WRAP;
use psutil_disk::{
    disk_partitions, disk_space, fstype, get_partitions, get_sector_size, line_disk_stats,
    per_disk_counters, total_disk_io_counters, DiskError, DiskIOCounters, DiskIOCountersNoWrap,
    DiskSpace, NamedCounters,
};

const PARTITIONS: &[u8] = b"major minor  #blocks  name\n\n   8        0  500107608 sda\n   8        1     524288 sda1\n   8        2  499582279 sda2\n   8       16  976762584 sdb\n";

fn stats_line(name: &str, values: [u64; 11]) -> String {
    let mut s = format!("   8       0 {}", name);
    for v in values.iter() {
        s.push_str(&format!(" {}", v));
    }
    s.push('\n');
    s
}

fn counters(read_count: u64) -> DiskIOCounters {
    DiskIOCounters {
        read_count,
        write_count: 0,
        read_bytes: 0,
        write_bytes: 0,
        read_time: 0,
        write_time: 0,
        read_merged_count: 0,
        write_merged_count: 0,
        busy_time: 0,
    }
}

fn names(v: &[Vec<u8>]) -> Vec<String> {
    v.iter().map(|n| String::from_utf8(n.clone()).unwrap()).collect()
}

#[test]
fn partition_preferred_over_its_disk() {
    let table = b"major minor  #blocks  name\n\n   8        0  100 sda\n   8        1  50 sda1\n";
    let r = get_partitions(table).unwrap();
    assert_eq!(names(&r), vec!["sda1"]);
}

#[test]
fn disk_without_partition_is_kept() {
    let table = b"major minor  #blocks  name\n\n   8        0  100 sda\n";
    let r = get_partitions(table).unwrap();
    assert_eq!(names(&r), vec!["sda"]);
}

#[test]
fn enumeration_is_most_specific_first() {
    let r = get_partitions(PARTITIONS).unwrap();
    assert_eq!(names(&r), vec!["sdb", "sda2", "sda1"]);
}

#[test]
fn malformed_partition_row_is_rejected() {
    let table = b"major minor  #blocks  name\n\n   8        0  sda\n";
    assert_eq!(
        get_partitions(table),
        Err(DiskError::MalformedInput(b"   8        0  sda".to_vec()))
    );
}

#[test]
fn header_only_table_is_empty() {
    let table = b"major minor  #blocks  name\n\n";
    assert_eq!(get_partitions(table).unwrap().len(), 0);
}

#[test]
fn thirteen_or_fifteen_fields_are_unsupported() {
    let thirteen = b"8 0 sda 1 2 3 4 5 6 7 8 9 10\n";
    let fifteen = b"8 0 sda 1 2 3 4 5 6 7 8 9 10 11 12\n";
    let fourteen = b"8 0 sda 1 2 3 4 5 6 7 8 9 10 11\n";
    let table = b"h\n\n8 0 100 sda\n";
    let sizes: Vec<Option<Vec<u8>>> = vec![];
    assert!(matches!(
        per_disk_counters(table, thirteen, &sizes),
        Err(DiskError::UnsupportedKernelFormat)
    ));
    assert!(matches!(
        per_disk_counters(table, fifteen, &sizes),
        Err(DiskError::UnsupportedKernelFormat)
    ));
    let ok = per_disk_counters(table, fourteen, &sizes).unwrap();
    assert_eq!(ok.len(), 1);
}

#[test]
fn unparseable_counter_is_malformed() {
    let table = b"h\n\n8 0 100 sda\n";
    let stats = b"8 0 sda 1 2 x 4 5 6 7 8 9 10 11\n";
    let sizes: Vec<Option<Vec<u8>>> = vec![];
    assert_eq!(
        per_disk_counters(table, stats, &sizes).map(|v| v.len()),
        Err(DiskError::MalformedInput(b"x".to_vec()))
    );
}

#[test]
fn counter_values_parse() {
    let fields: Vec<Vec<u8>> = vec![b"0".to_vec(), b"18446744073709551615".to_vec(), b"42".to_vec()];
    assert_eq!(line_disk_stats(&fields), Ok(vec![0, u64::MAX, 42]));
    let too_big: Vec<Vec<u8>> = vec![b"18446744073709551616".to_vec()];
    assert_eq!(
        line_disk_stats(&too_big),
        Err(DiskError::MalformedInput(b"18446744073709551616".to_vec()))
    );
    let signed: Vec<Vec<u8>> = vec![b"-1".to_vec()];
    assert_eq!(line_disk_stats(&signed), Err(DiskError::MalformedInput(b"-1".to_vec())));
}

#[test]
fn field_mapping_and_bytes_use_sector_size() {
    let table = b"h\n\n8 0 100 sda\n";
    let stats = stats_line("sda", [1, 2, 3, 4, 5, 6, 7, 8, 9, 10, 11]);
    let sizes: Vec<Option<Vec<u8>>> = vec![Some(b"4096\n".to_vec())];
    let r = per_disk_counters(table, stats.as_bytes(), &sizes).unwrap();
    assert_eq!(r.len(), 1);
    assert_eq!(r[0].name, b"sda".to_vec());
    let c = r[0].counters;
    assert_eq!(c.read_count, 1);
    assert_eq!(c.read_merged_count, 2);
    assert_eq!(c.read_bytes, 3 * 4096);
    assert_eq!(c.read_time, 4);
    assert_eq!(c.write_count, 5);
    assert_eq!(c.write_merged_count, 6);
    assert_eq!(c.write_bytes, 7 * 4096);
    assert_eq!(c.write_time, 8);
    assert_eq!(c.busy_time, 10);
}

#[test]
fn unreadable_sector_size_defaults_to_512() {
    let table = b"h\n\n8 0 100 sda\n";
    let stats = stats_line("sda", [1, 2, 3, 4, 5, 6, 7, 8, 9, 10, 11]);
    let sizes: Vec<Option<Vec<u8>>> = vec![None];
    let r = per_disk_counters(table, stats.as_bytes(), &sizes).unwrap();
    assert_eq!(r[0].counters.read_bytes, 3 * 512);
    assert_eq!(r[0].counters.write_bytes, 7 * 512);
    let none: Vec<Option<Vec<u8>>> = vec![];
    let r = per_disk_counters(table, stats.as_bytes(), &none).unwrap();
    assert_eq!(r[0].counters.read_bytes, 3 * 512);
}

#[test]
fn sector_size_text() {
    assert_eq!(get_sector_size(None), Ok(512));
    assert_eq!(get_sector_size(Some(b" 4096\n")), Ok(4096));
    assert_eq!(get_sector_size(Some(b"+512\n")), Ok(512));
    assert_eq!(
        get_sector_size(Some(b"abc\n")),
        Err(DiskError::MalformedInput(b"abc\n".to_vec()))
    );
    assert_eq!(get_sector_size(Some(b"")), Err(DiskError::MalformedInput(Vec::new())));
    assert_eq!(get_sector_size(Some(b"+")), Err(DiskError::MalformedInput(b"+".to_vec())));
}

#[test]
fn bad_sector_size_fails_the_poll() {
    let table = b"h\n\n8 0 100 sda\n";
    let stats = stats_line("sda", [1, 2, 3, 4, 5, 6, 7, 8, 9, 10, 11]);
    let sizes: Vec<Option<Vec<u8>>> = vec![Some(b"lots".to_vec())];
    assert!(matches!(
        per_disk_counters(table, stats.as_bytes(), &sizes),
        Err(DiskError::MalformedInput(_))
    ));
}

#[test]
fn byte_count_overflow_is_reported() {
    let table = b"h\n\n8 0 100 sda\n";
    let stats = stats_line("sda", [1, 2, u64::MAX / 2, 4, 5, 6, 7, 8, 9, 10, 11]);
    let sizes: Vec<Option<Vec<u8>>> = vec![None];
    assert!(matches!(
        per_disk_counters(table, stats.as_bytes(), &sizes),
        Err(DiskError::CounterOverflow)
    ));
}

#[test]
fn unlisted_devices_are_skipped() {
    let mut stats = stats_line("sda", [1; 11]);
    stats.push_str(&stats_line("sda1", [2; 11]));
    stats.push_str(&stats_line("loop0", [3; 11]));
    stats.push_str(&stats_line("sdb", [4; 11]));
    let sizes: Vec<Option<Vec<u8>>> = vec![];
    let r = per_disk_counters(PARTITIONS, stats.as_bytes(), &sizes).unwrap();
    let got: Vec<Vec<u8>> = r.iter().map(|n| n.name.clone()).collect();
    assert_eq!(names(&got), vec!["sda1", "sdb"]);
}

fn poll_read_count(acc: &mut DiskIOCountersNoWrap, nowrap: bool, raw: u64) -> u64 {
    let table = b"h\n\n8 0 100 sda\n";
    let stats = stats_line("sda", [raw, 0, 0, 0, 0, 0, 0, 0, 0, 0, 0]);
    let sizes: Vec<Option<Vec<u8>>> = vec![None];
    let r = acc.disk_io_counters_perdisk(nowrap, table, stats.as_bytes(), &sizes).unwrap();
    assert_eq!(r.len(), 1);
    r[0].read_count
}

#[test]
fn wraparound_sequence() {
    let mut acc = DiskIOCountersNoWrap::new();
    assert_eq!(poll_read_count(&mut acc, true, 100), 100);
    assert_eq!(poll_read_count(&mut acc, true, 4294967290), 4294967290);
    // the raw value fell from 4294967290 to 5: the counter wrapped
    assert_eq!(poll_read_count(&mut acc, true, 5), COUNTER_WRAP + 5);
    assert_eq!(poll_read_count(&mut acc, true, 5), COUNTER_WRAP + 5);
    assert_eq!(poll_read_count(&mut acc, true, 10), COUNTER_WRAP + 10);
}

#[test]
fn counters_without_wrap_never_decrease() {
    let mut acc = DiskIOCountersNoWrap::new();
    let mut prev = 0;
    for raw in [0u64, 10, 10, 2000, 4294967295] {
        let got = poll_read_count(&mut acc, true, raw);
        assert_eq!(got, raw);
        assert!(got >= prev);
        prev = got;
    }
    let mut acc = DiskIOCountersNoWrap::new();
    let mut prev = 0;
    for raw in [4000000000u64, 7, 4294967295, 3, 3, 100] {
        let got = poll_read_count(&mut acc, true, raw);
        assert!(got >= prev);
        prev = got;
    }
    assert_eq!(prev, 2 * COUNTER_WRAP + 100);
}

#[test]
fn reset_then_poll_returns_raw() {
    let mut acc = DiskIOCountersNoWrap::new();
    assert_eq!(poll_read_count(&mut acc, true, 4294967290), 4294967290);
    acc.cache_clear();
    assert_eq!(poll_read_count(&mut acc, true, 5), 5);
    assert_eq!(poll_read_count(&mut acc, true, 3), COUNTER_WRAP + 3);
}

#[test]
fn raw_mode_leaves_the_accumulator_alone() {
    let mut acc = DiskIOCountersNoWrap::new();
    assert_eq!(poll_read_count(&mut acc, true, 4294967290), 4294967290);
    assert_eq!(poll_read_count(&mut acc, false, 5), 5);
    assert_eq!(poll_read_count(&mut acc, false, 1), 1);
    assert_eq!(poll_read_count(&mut acc, true, 5), COUNTER_WRAP + 5);
}

#[test]
fn failed_poll_leaves_the_accumulator_alone() {
    let mut acc = DiskIOCountersNoWrap::new();
    assert_eq!(poll_read_count(&mut acc, true, 4294967290), 4294967290);
    let sizes: Vec<Option<Vec<u8>>> = vec![];
    let bad = acc.disk_io_counters_perdisk(true, b"h\n\n8 0 100 sda\n", b"8 0 sda 1\n", &sizes);
    assert!(matches!(bad, Err(DiskError::UnsupportedKernelFormat)));
    assert_eq!(poll_read_count(&mut acc, true, 5), COUNTER_WRAP + 5);
}

#[test]
fn correction_follows_device_names() {
    let past = vec![
        NamedCounters { name: b"sda1".to_vec(), counters: counters(4294967290) },
        NamedCounters { name: b"sdb".to_vec(), counters: counters(50) },
    ];
    let now = vec![
        NamedCounters { name: b"sdc".to_vec(), counters: counters(7) },
        NamedCounters { name: b"sdb".to_vec(), counters: counters(60) },
        NamedCounters { name: b"sda1".to_vec(), counters: counters(5) },
    ];
    let reported = vec![counters(4294967290), counters(1050)];
    let r = total_disk_io_counters(&past, &reported, &now);
    assert_eq!(r, Some(vec![counters(7), counters(1060), counters(COUNTER_WRAP + 5)]));
}

#[test]
fn total_is_field_wise_sum() {
    let mut stats = stats_line("sda1", [1, 2, 3, 4, 5, 6, 7, 8, 9, 10, 11]);
    stats.push_str(&stats_line("sda2", [10, 20, 30, 40, 50, 60, 70, 80, 90, 100, 110]));
    stats.push_str(&stats_line("sdb", [100, 200, 300, 400, 500, 600, 700, 800, 900, 1000, 1100]));
    let sizes: Vec<Option<Vec<u8>>> = vec![None, None, Some(b"4096".to_vec())];
    let mut acc = DiskIOCountersNoWrap::new();
    let per = acc.disk_io_counters_perdisk(false, PARTITIONS, stats.as_bytes(), &sizes).unwrap();
    let total = acc.disk_io_counters(false, PARTITIONS, stats.as_bytes(), &sizes).unwrap();
    assert_eq!(per.len(), 3);
    assert_eq!(total.read_count, 111);
    assert_eq!(total.read_merged_count, 222);
    assert_eq!(total.read_bytes, 3 * 4096 + 30 * 512 + 300 * 512);
    assert_eq!(total.read_time, 444);
    assert_eq!(total.write_count, 555);
    assert_eq!(total.write_merged_count, 666);
    assert_eq!(total.write_bytes, 7 * 4096 + 70 * 512 + 700 * 512);
    assert_eq!(total.write_time, 888);
    assert_eq!(total.busy_time, 1110);
    let sum = per.iter().fold(0, |a, c| a + c.read_bytes);
    assert_eq!(total.read_bytes, sum);
}

#[test]
fn empty_poll_total_is_zero() {
    let mut acc = DiskIOCountersNoWrap::new();
    let sizes: Vec<Option<Vec<u8>>> = vec![];
    let total = acc.disk_io_counters(true, PARTITIONS, b"", &sizes).unwrap();
    assert_eq!(total, counters(0));
}

#[test]
fn total_overflow_is_reported() {
    let mut stats = stats_line("sda1", [u64::MAX, 0, 0, 0, 0, 0, 0, 0, 0, 0, 0]);
    stats.push_str(&stats_line("sdb", [1, 0, 0, 0, 0, 0, 0, 0, 0, 0, 0]));
    let sizes: Vec<Option<Vec<u8>>> = vec![];
    let mut acc = DiskIOCountersNoWrap::new();
    let r = acc.disk_io_counters(false, PARTITIONS, stats.as_bytes(), &sizes);
    assert_eq!(r, Err(DiskError::CounterOverflow));
}

#[test]
fn filesystem_types() {
    let list = b"nodev\tsysfs\nnodev\tproc\n\text4\nnodev\tzfs\n\tvfat\n";
    let r = fstype(list).unwrap();
    assert_eq!(names(&r), vec!["ext4", "zfs", "vfat"]);
    assert_eq!(fstype(b"ext4\nnodev\n"), Err(DiskError::MalformedInput(b"nodev".to_vec())));
    assert_eq!(fstype(b"ext4\n\nvfat\n"), Err(DiskError::MalformedInput(Vec::new())));
}

#[test]
fn mounted_partitions_filtered_by_type() {
    let list = b"nodev\tproc\n\text4\n";
    let mounts = b"/dev/sda1 / ext4 rw,relatime 0 0\nproc /proc proc rw 0 0\n";
    let physical = disk_partitions(false, list, mounts).unwrap();
    assert_eq!(physical.len(), 1);
    assert_eq!(physical[0].device, b"/dev/sda1".to_vec());
    assert_eq!(physical[0].mountpoint, b"/".to_vec());
    assert_eq!(physical[0].fstype, b"ext4".to_vec());
    assert_eq!(physical[0].opts, b"rw,relatime".to_vec());
    let every = disk_partitions(true, list, mounts).unwrap();
    assert_eq!(every.len(), 2);
    assert_eq!(every[1].device, b"proc".to_vec());
    assert_eq!(
        disk_partitions(true, list, b"proc /proc proc\n"),
        Err(DiskError::MalformedInput(b"proc /proc proc".to_vec()))
    );
}

#[test]
fn filesystem_space() {
    assert_eq!(
        disk_space(1000, 300, 250, 4096),
        Ok(DiskSpace { total: 4096000, used: 700 * 4096, free: 250 * 4096 })
    );
    assert_eq!(disk_space(10, 11, 0, 512), Err(DiskError::MalformedInput(Vec::new())));
    assert_eq!(disk_space(u64::MAX, 0, 0, 2), Err(DiskError::CounterOverflow));
}

#[test]
fn disk_left_out_only_for_its_own_partition() {
    let table = b"major minor  #blocks  name\n\n8 0 100 sda\n8 16 100 sdb\n8 1 50 sda1\n";
    let r = get_partitions(table).unwrap();
    assert_eq!(names(&r), vec!["sda1", "sdb"]);
}

#[test]
fn disk_is_not_left_out_for_another_disk() {
    let table = b"major minor  #blocks  name\n\n8 0 100 sd\n8 16 100 sdx\n";
    let r = get_partitions(table).unwrap();
    assert_eq!(names(&r), vec!["sdx", "sd"]);
}

#[test]
fn first_bad_counter_is_named() {
    let fields: Vec<Vec<u8>> = vec![b"5".to_vec(), b"-1".to_vec(), b"x".to_vec()];
    assert_eq!(line_disk_stats(&fields), Err(DiskError::MalformedInput(b"-1".to_vec())));
}

#[test]
fn leading_plus_is_accepted() {
    let fields: Vec<Vec<u8>> = vec![b"+5".to_vec(), b"7".to_vec()];
    assert_eq!(line_disk_stats(&fields), Ok(vec![5, 7]));
    let twice: Vec<Vec<u8>> = vec![b"++5".to_vec()];
    assert_eq!(line_disk_stats(&twice), Err(DiskError::MalformedInput(b"++5".to_vec())));
    let table = b"h\n\n8 0 100 sda\n";
    let stats = b"8 0 sda +1 2 +3 4 5 6 7 8 9 10 11\n";
    let sizes: Vec<Option<Vec<u8>>> = vec![Some(b"+4096".to_vec())];
    let r = per_disk_counters(table, stats, &sizes).unwrap();
    assert_eq!(r[0].counters.read_count, 1);
    assert_eq!(r[0].counters.read_bytes, 3 * 4096);
}

#[test]
fn total_never_decreases_across_a_wrap() {
    let table = b"h\n\n8 0 100 sda\n8 16 100 sdb\n";
    let sizes: Vec<Option<Vec<u8>>> = vec![];
    let mut acc = DiskIOCountersNoWrap::new();
    let mut prev = 0;
    for (a, b) in [(100u64, 10u64), (4294967290, 20), (5, 30), (6, 4)] {
        let mut stats = stats_line("sda", [a, 0, 0, 0, 0, 0, 0, 0, 0, 0, 0]);
        stats.push_str(&stats_line("sdb", [b, 0, 0, 0, 0, 0, 0, 0, 0, 0, 0]));
        let total = acc.disk_io_counters(true, table, stats.as_bytes(), &sizes).unwrap();
        assert!(total.read_count >= prev);
        prev = total.read_count;
    }
    assert_eq!(prev, (COUNTER_WRAP + 6) + (COUNTER_WRAP + 4));
}

#[test]
fn drop_beyond_the_counter_range_counts_as_restart() {
    let table = b"h\n\n8 0 100 sda\n";
    let sizes: Vec<Option<Vec<u8>>> = vec![];
    let mut acc = DiskIOCountersNoWrap::new();
    let big = stats_line("sda", [0, 0, 10 * COUNTER_WRAP, 0, 0, 0, 0, 0, 0, 0, 0]);
    let small = stats_line("sda", [0, 0, 7, 0, 0, 0, 0, 0, 0, 0, 0]);
    let r = acc.disk_io_counters_perdisk(true, table, big.as_bytes(), &sizes).unwrap();
    assert_eq!(r[0].read_bytes, 10 * COUNTER_WRAP * 512);
    let r = acc.disk_io_counters_perdisk(true, table, small.as_bytes(), &sizes).unwrap();
    assert_eq!(r[0].read_bytes, 10 * COUNTER_WRAP * 512 + 7 * 512);
}

#[test]
fn corrected_overflow_fails_and_keeps_state() {
    let table = b"h\n\n8 0 100 sda\n";
    let sizes: Vec<Option<Vec<u8>>> = vec![];
    let mut acc = DiskIOCountersNoWrap::new();
    let top = stats_line("sda", [u64::MAX, 0, 0, 0, 0, 0, 0, 0, 0, 0, 0]);
    let low = stats_line("sda", [u64::MAX - 10, 0, 0, 0, 0, 0, 0, 0, 0, 0, 0]);
    acc.disk_io_counters_perdisk(true, table, top.as_bytes(), &sizes).unwrap();
    let r = acc.disk_io_counters_perdisk(true, table, low.as_bytes(), &sizes);
    assert_eq!(r, Err(DiskError::CounterOverflow));
    let again = acc.disk_io_counters_perdisk(true, table, top.as_bytes(), &sizes).unwrap();
    assert_eq!(again[0].read_count, u64::MAX);
}

#[test]
fn one_line_table_is_all_header() {
    let table = b"major minor  #blocks  name\n";
    assert_eq!(get_partitions(table).unwrap().len(), 0);
}
