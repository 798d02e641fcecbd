use vmm::dirty::{collect_dirty_pages, DirtyBitmap};
use vmm::errors::VmmError;
use vmm::message::{build_migration_message, encode_migration_message};
use vmm::ram::GuestRam;
use vmm::receiver::{apply_initial, apply_migration_message, ReceiverState};
use vmm::sender::{is_stabilized, SenderState};
use vmm::PAGE_SIZE;

#[test]
fn bitmap_scan_reports_set_bits() {
    // Word 0 has bits 1 and 3, word 1 has bit 63.
    let words = vec![0b1010u64, 1u64 << 63];
    assert_eq!(collect_dirty_pages(&words), vec![1, 3, 127]);
    assert_eq!(collect_dirty_pages(&vec![0u64, 0]), Vec::<u64>::new());
}

#[test]
fn dirty_cell_clears_on_collect() {
    let mut cell = DirtyBitmap::new(2);
    cell.mark(5);
    cell.mark(64);
    cell.mark(100);
    cell.mark(5);
    assert_eq!(cell.collect(), vec![5, 64, 100]);
    // Reading cleared the cell: only later writes show up.
    assert_eq!(cell.collect(), Vec::<u64>::new());
    cell.mark(7);
    assert_eq!(cell.collect(), vec![7]);
}

#[test]
fn stability_threshold_is_exact() {
    // Five deltas summing to 499 average under the threshold; 500 does
    // not.
    assert!(is_stabilized(&vec![0, 499, 499, 499, 499, 499]));
    assert!(!is_stabilized(&vec![0, 500, 500, 500, 500, 500]));
    // Too short a history is never stable.
    assert!(!is_stabilized(&vec![0, 0, 0, 0, 0]));
}

#[test]
fn sender_converges_on_steady_ring() {
    // A guest dirtying a steady ring of 32 pages: the cut comes on the
    // first settled pass after the minimum, well before the ceiling.
    let mut sender = SenderState::new(4096);
    let mut cut_pass = None;
    for _ in 0..32 {
        let d = sender.dirty_pass(32);
        if d.capture_cpu {
            assert!(cut_pass.is_none());
            cut_pass = Some(sender.dirty_history.len() - 1);
        }
        if d.done {
            break;
        }
    }
    // History [4096, 32, 32, 32, 32, 32, 32]: pass six is the first with
    // five settled deltas.
    assert_eq!(cut_pass, Some(6));
    assert_eq!(sender.last_iteration, Some(7));
}

#[test]
fn sender_cuts_at_forced_ceiling() {
    // Counts that never settle: the cut is forced on pass 13 and the run
    // ends on pass 14.
    let mut sender = SenderState::new(1 << 20);
    let mut passes = 0u64;
    loop {
        let count = if passes % 2 == 0 { 0 } else { 1 << 19 };
        let d = sender.dirty_pass(count);
        passes += 1;
        if d.capture_cpu {
            assert_eq!(passes, 13);
        }
        if d.done {
            break;
        }
        assert!(passes < 20);
    }
    assert_eq!(passes, 14);
    assert_eq!(sender.last_iteration, Some(14));
}

#[test]
fn guest_ram_write_read_round_trip() {
    let mut ram = GuestRam::new((4 * PAGE_SIZE) as u64).unwrap();
    assert_eq!(ram.size(), (4 * PAGE_SIZE) as u64);
    let zero = ram.read_region(0, PAGE_SIZE).unwrap();
    assert!(zero.iter().all(|b| *b == 0));
    let data = vec![0xabu8; 100];
    ram.write_region(300, &data).unwrap();
    let back = ram.read_region(300, 100).unwrap();
    assert_eq!(back, data);
    let edge = ram.read_region(299, 1).unwrap();
    assert_eq!(edge, vec![0]);
    // Out of range accesses fail.
    assert!(matches!(
        ram.write_region((4 * PAGE_SIZE) as u64 - 1, &vec![0u8; 2]),
        Err(VmmError::GuestMemoryAccess)
    ));
    assert!(matches!(
        ram.read_region((4 * PAGE_SIZE) as u64, 1),
        Err(VmmError::GuestMemoryAccess)
    ));
}

#[test]
fn receiver_applies_bulk_and_dirty_pages() {
    let mut ram = GuestRam::new((4 * PAGE_SIZE) as u64).unwrap();
    let mut state = ReceiverState::new();

    // Bulk pass: two pages of 1s.
    let bulk = vec![1u8; 2 * PAGE_SIZE];
    state.handle_body(&mut ram, &bulk).unwrap();
    assert_eq!(state.iteration, 1);

    // One dirty page: page 3 becomes 2s, carrying the CPU path and the
    // terminator.
    let msg = build_migration_message(
        vec![2u8; PAGE_SIZE],
        vec![3],
        String::from("cpu_live.txt"),
        true,
    );
    let body = encode_migration_message(&msg);
    state.handle_body(&mut ram, &body).unwrap();
    assert!(state.done);
    assert_eq!(state.cpu_state_file_path, "cpu_live.txt");

    assert_eq!(ram.read_region(0, PAGE_SIZE).unwrap(), vec![1u8; PAGE_SIZE]);
    assert_eq!(
        ram.read_region((2 * PAGE_SIZE) as u64, PAGE_SIZE).unwrap(),
        vec![0u8; PAGE_SIZE]
    );
    assert_eq!(
        ram.read_region((3 * PAGE_SIZE) as u64, PAGE_SIZE).unwrap(),
        vec![2u8; PAGE_SIZE]
    );
}

#[test]
fn receiver_rejects_corrupt_body() {
    // A body that does not parse drops the restore and leaves RAM alone.
    let mut ram = GuestRam::new((2 * PAGE_SIZE) as u64).unwrap();
    let mut state = ReceiverState::new();
    state.handle_body(&mut ram, &vec![7u8; PAGE_SIZE]).unwrap();
    let before = ram.read_region(0, 2 * PAGE_SIZE).unwrap();
    let garbage = vec![0xffu8; 5];
    assert!(state.handle_body(&mut ram, &garbage).is_err());
    assert_eq!(state.iteration, 1);
    assert!(!state.done);
    assert_eq!(ram.read_region(0, 2 * PAGE_SIZE).unwrap(), before);
}

#[test]
fn apply_rejects_mismatched_payload() {
    let mut ram = GuestRam::new((2 * PAGE_SIZE) as u64).unwrap();
    // Payload one byte short of a page.
    let msg = build_migration_message(
        vec![1u8; PAGE_SIZE - 1],
        vec![0],
        String::new(),
        false,
    );
    assert!(matches!(
        apply_migration_message(&mut ram, &msg),
        Err(VmmError::MalformedInput)
    ));
    // A page index outside guest memory.
    let msg2 = build_migration_message(vec![1u8; PAGE_SIZE], vec![2], String::new(), false);
    assert!(matches!(
        apply_migration_message(&mut ram, &msg2),
        Err(VmmError::PageOutOfRange)
    ));
}

#[test]
fn apply_initial_needs_whole_pages() {
    let mut ram = GuestRam::new((2 * PAGE_SIZE) as u64).unwrap();
    assert!(matches!(
        apply_initial(&mut ram, &vec![0u8; PAGE_SIZE + 1]),
        Err(VmmError::MalformedInput)
    ));
    assert!(matches!(
        apply_initial(&mut ram, &vec![0u8; 3 * PAGE_SIZE]),
        Err(VmmError::PageOutOfRange)
    ));
    assert!(apply_initial(&mut ram, &vec![9u8; PAGE_SIZE]).is_ok());
    assert_eq!(ram.read_region(0, 1).unwrap(), vec![9]);
}
