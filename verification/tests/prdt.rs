use tifflin::storage_ahci::error::AhciError;
use tifflin::storage_ahci::prdt::{DmaBuffer, PrdtEntry, MAX_SEG_LEN, PRDT_IOC};

fn contiguous_frames(first: u64, n: usize) -> Vec<u64> {
    (0..n).map(|i| first + (i as u64) * 0x1000).collect()
}

#[test]
fn contiguous_buffer_gives_one_entry_with_the_flag() {
    let buf = DmaBuffer::new(0xFFFF_8000_0000_2000usize, 8192, vec![0x10000, 0x11000]).unwrap();
    let prdt = buf.build_prdt().unwrap();
    assert_eq!(prdt, vec![PrdtEntry { dba: 0x10000, dbc: 8191 | PRDT_IOC }]);
    assert_eq!(prdt[0].len(), 8192);
    assert!(prdt[0].interrupt_on_completion());
}

#[test]
fn contiguous_buffer_of_four_megabytes_is_one_entry() {
    let buf = DmaBuffer::new(0x4000_0000, MAX_SEG_LEN, contiguous_frames(0x80_0000, 1024)).unwrap();
    let prdt = buf.build_prdt().unwrap();
    assert_eq!(prdt.len(), 1);
    assert_eq!(prdt[0].dba, 0x80_0000);
    assert_eq!(prdt[0].dbc, 0x3F_FFFF | PRDT_IOC);
    assert_eq!(prdt[0].len(), MAX_SEG_LEN);
}

#[test]
fn scattered_pages_give_one_entry_each() {
    for k in 1..=6usize {
        let frames: Vec<u64> = (0..k).map(|i| 0x10_0000 + (i as u64) * 0x3000).collect();
        let buf = DmaBuffer::new(0x7000, k * 4096, frames.clone()).unwrap();
        let prdt = buf.build_prdt().unwrap();
        assert_eq!(prdt.len(), k);
        for (i, e) in prdt.iter().enumerate() {
            assert_eq!(e.dba, frames[i]);
            assert_eq!(e.len(), 4096);
            assert_eq!(e.interrupt_on_completion(), i == k - 1);
        }
    }
}

#[test]
fn buffer_inside_one_page() {
    let buf = DmaBuffer::new(0x1234_5678usize & !1, 512, vec![0xABC000]).unwrap();
    let prdt = buf.build_prdt().unwrap();
    assert_eq!(prdt, vec![PrdtEntry { dba: 0xABC000 + 0x678, dbc: 511 | PRDT_IOC }]);
}

#[test]
fn buffer_that_starts_inside_a_page_and_spans_scattered_pages() {
    let buf = DmaBuffer::new(0x2100, 0x2000, vec![0x50000, 0x90000, 0x30000]).unwrap();
    let prdt = buf.build_prdt().unwrap();
    assert_eq!(
        prdt,
        vec![
            PrdtEntry { dba: 0x50100, dbc: 0xEFF },
            PrdtEntry { dba: 0x90000, dbc: 0xFFF },
            PrdtEntry { dba: 0x30000, dbc: 0xFF | PRDT_IOC },
        ]
    );
}

#[test]
fn contiguous_runs_are_merged_and_breaks_cut() {
    let frames = vec![0x10000, 0x11000, 0x12000, 0x40000, 0x41000, 0x20000];
    let buf = DmaBuffer::new(0, 6 * 4096, frames).unwrap();
    let prdt = buf.build_prdt().unwrap();
    assert_eq!(
        prdt,
        vec![
            PrdtEntry { dba: 0x10000, dbc: 3 * 4096 - 1 },
            PrdtEntry { dba: 0x40000, dbc: 2 * 4096 - 1 },
            PrdtEntry { dba: 0x20000, dbc: (4096 - 1) | PRDT_IOC },
        ]
    );
}

#[test]
fn segments_are_capped_at_four_megabytes() {
    let buf = DmaBuffer::new(0, 2 * MAX_SEG_LEN + 4096, contiguous_frames(0x100_0000, 2049)).unwrap();
    let prdt = buf.build_prdt().unwrap();
    assert_eq!(
        prdt,
        vec![
            PrdtEntry { dba: 0x100_0000, dbc: 0x3F_FFFF },
            PrdtEntry { dba: 0x100_0000 + 0x40_0000, dbc: 0x3F_FFFF },
            PrdtEntry { dba: 0x100_0000 + 0x80_0000, dbc: 0xFFF | PRDT_IOC },
        ]
    );
}

#[test]
fn capped_segment_that_starts_inside_a_page() {
    let buf = DmaBuffer::new(0x800, MAX_SEG_LEN + 0x800, contiguous_frames(0x200_0000, 1025)).unwrap();
    let prdt = buf.build_prdt().unwrap();
    assert_eq!(
        prdt,
        vec![
            PrdtEntry { dba: 0x200_0800, dbc: 0x3F_FFFF },
            PrdtEntry { dba: 0x200_0800 + 0x40_0000, dbc: 0x7FF | PRDT_IOC },
        ]
    );
}

#[test]
fn unaligned_base_is_refused() {
    let buf = DmaBuffer::new(0x1002, 512, vec![0x3000]).unwrap();
    assert_eq!(buf.build_prdt(), Err(AhciError::UnalignedBuffer));
}

#[test]
fn odd_length_is_refused() {
    let buf = DmaBuffer::new(0x1000, 511, vec![0x3000]).unwrap();
    assert_eq!(buf.build_prdt(), Err(AhciError::UnalignedBuffer));
}

#[test]
fn odd_length_of_a_later_segment_is_refused() {
    let buf = DmaBuffer::new(0x1000, 4096 + 3, vec![0x3000, 0x9000]).unwrap();
    assert_eq!(buf.build_prdt(), Err(AhciError::UnalignedBuffer));
}

#[test]
fn empty_buffer_is_no_buffer() {
    assert!(DmaBuffer::new(0x1000, 0, Vec::new()).is_none());
    assert!(DmaBuffer::new(0x1000, 0, vec![0x3000]).is_none());
}

#[test]
fn frames_have_to_match_the_pages_of_the_buffer() {
    assert!(DmaBuffer::new(0x1000, 4096, vec![0x3000, 0x4000]).is_none());
    assert!(DmaBuffer::new(0x1800, 4096, vec![0x3000]).is_none());
    assert!(DmaBuffer::new(0x1800, 4096, vec![0x3000, 0x4000]).is_some());
    assert!(DmaBuffer::new(0x1000, 4096, vec![0x3004]).is_none());
    assert!(DmaBuffer::new(0x1000, 4096, Vec::new()).is_none());
    assert!(DmaBuffer::new(usize::MAX - 10, 100, vec![0x3000, 0x4000]).is_none());
}

#[test]
fn physical_address_of_each_byte() {
    let buf = DmaBuffer::new(0x2100, 0x2000, vec![0x50000, 0x90000, 0x30000]).unwrap();
    assert_eq!(buf.len(), 0x2000);
    assert_eq!(buf.phys_at(0), 0x50100);
    assert_eq!(buf.phys_at(0xEFF), 0x50FFF);
    assert_eq!(buf.phys_at(0xF00), 0x90000);
    assert_eq!(buf.phys_at(0x1EFF), 0x90FFF);
    assert_eq!(buf.phys_at(0x1F00), 0x30000);
    assert_eq!(buf.phys_at(0x1FFF), 0x300FF);
}
