use rpi_os::atags::{Atag, Atags, Core, Mem, ATAG_CMDLINE, ATAG_CORE, ATAG_MEM, ATAG_NONE};
use rpi_os::duration::Duration;

#[test]
fn durations_compare_by_span() {
    assert_eq!(Duration::Seconds(120), Duration::Minutes(2));
    assert_eq!(Duration::Seconds(420), Duration::Minutes(7));
    assert_eq!(Duration::MilliSeconds(420000), Duration::Minutes(7));
    assert_eq!(Duration::MilliSeconds(43000), Duration::Seconds(43));
    assert_ne!(Duration::Seconds(1), Duration::MilliSeconds(1));
    assert_eq!(Duration::from(5u64), Duration::MilliSeconds(5));
    assert_eq!(Duration::Minutes(u16::MAX).as_millis(), 65535 * 60000);
}

fn cmdline_words(s: &[u8]) -> Vec<u32> {
    let mut bytes = s.to_vec();
    bytes.push(0);
    while bytes.len() % 4 != 0 {
        bytes.push(0);
    }
    bytes.chunks(4).map(|c| u32::from_le_bytes([c[0], c[1], c[2], c[3]])).collect()
}

fn sample() -> Vec<u32> {
    let mut w = vec![5, ATAG_CORE, 0, 4096, 0, 4, ATAG_MEM, 0x3b00_0000, 0];
    let cmd = cmdline_words(b"bcm2708_fb.fbwidth=656 console=ttyS0");
    w.push(2 + cmd.len() as u32);
    w.push(ATAG_CMDLINE);
    w.extend(cmd);
    w.extend([3, 0x5441_0042, 77]);
    w.extend([0, ATAG_NONE]);
    w
}

#[test]
fn atags_iterate_in_order() {
    let mut a = Atags::from_words(sample()).unwrap();
    match a.current() {
        Atag::Core(c) => assert_eq!(c, Core { flags: 0, page_size: 4096, root_dev: 0 }),
        other => panic!("unexpected {:?}", other),
    }
    match a.next() {
        Some(Atag::Mem(m)) => assert_eq!(m, Mem { size: 0x3b00_0000, start: 0 }),
        other => panic!("unexpected {:?}", other),
    }
    match a.next() {
        Some(Atag::Cmd(c)) => assert_eq!(c, b"bcm2708_fb.fbwidth=656 console=ttyS0".to_vec()),
        other => panic!("unexpected {:?}", other),
    }
    match a.next() {
        Some(Atag::Unknown(t)) => assert_eq!(t, 0x5441_0042),
        other => panic!("unexpected {:?}", other),
    }
    assert!(matches!(a.next(), Some(Atag::End)));
    assert!(a.next().is_none());
    assert!(a.next().is_none());
    assert!(matches!(a.current(), Atag::End));
}

#[test]
fn atags_reject_malformed_lists() {
    assert!(Atags::from_words(vec![]).is_none());
    assert!(Atags::from_words(vec![5, ATAG_CORE, 0, 0]).is_none());
    assert!(Atags::from_words(vec![3, ATAG_MEM, 0, 0, 0, ATAG_NONE]).is_none());
    assert!(Atags::from_words(vec![2, 7]).is_none());
    assert!(Atags::from_words(vec![0, ATAG_NONE]).is_some());
}

#[test]
fn atags_cmdline_without_nul() {
    let w = vec![3, ATAG_CMDLINE, u32::from_le_bytes(*b"abcd"), 0, ATAG_NONE];
    let a = Atags::from_words(w).unwrap();
    match a.current() {
        Atag::Cmd(c) => assert_eq!(c, b"abcd".to_vec()),
        other => panic!("unexpected {:?}", other),
    }
}

#[test]
fn atags_visit_all_ends_with_end() {
    let all = Atags::from_words(sample()).unwrap().visit_all();
    assert_eq!(all.len(), 5);
    assert!(matches!(all[0], Atag::Core(_)));
    assert!(matches!(all[1], Atag::Mem(_)));
    assert!(matches!(all[2], Atag::Cmd(_)));
    assert!(matches!(all[3], Atag::Unknown(0x5441_0042)));
    assert!(matches!(all[4], Atag::End));
    let only_end = Atags::from_words(vec![0, ATAG_NONE]).unwrap().visit_all();
    assert_eq!(only_end.len(), 1);
}
