use genvm::calldata::Address;
use genvm::host::SlotID;
use genvm::storage::{HostStorage, PageID, Storage};

/// A host whose slots all hold byte `i % 251` at position `i`; or one that
/// fails every read.
struct PatternHost {
    fail: bool,
}

impl HostStorage for PatternHost {
    fn storage_read(&mut self, _slot_id: SlotID, index: u32, buf: &mut [u8]) -> Result<(), String> {
        if self.fail {
            return Err("host down".to_string());
        }
        for (k, b) in buf.iter_mut().enumerate() {
            *b = ((index as usize + k) % 251) as u8;
        }
        Ok(())
    }
}

fn storage(fail: bool) -> Storage<PatternHost> {
    Storage::new(Address([7u8; 20]), PatternHost { fail })
}

fn slot(n: u8) -> SlotID {
    SlotID([n; 32])
}

#[test]
fn page_id_bytes() {
    let id = PageID(slot(3), 0x01020304);
    let b = id.to_bytes();
    assert_eq!(&b[..32], &[3u8; 32]);
    assert_eq!(&b[32..], &[4, 3, 2, 1]);
}

#[test]
fn read_comes_from_host_without_overrides() {
    let mut s = storage(false);
    let mut buf = [0u8; 10];
    s.read(slot(1), 100, &mut buf).unwrap();
    let expected: Vec<u8> = (100..110).map(|i| (i % 251) as u8).collect();
    assert_eq!(buf.to_vec(), expected);
}

#[test]
fn read_after_write_single_page() {
    let mut s = storage(false);
    s.write(slot(1), 5, &[9, 8, 7]).unwrap();
    let mut buf = [0u8; 3];
    s.read(slot(1), 5, &mut buf).unwrap();
    assert_eq!(buf, [9, 8, 7]);
    // the rest of the page was completed from the host
    let page = s.read_page_override(PageID(slot(1), 0)).unwrap();
    assert_eq!(page[4], 4);
    assert_eq!(page[8], 8);
}

#[test]
fn read_after_write_many_pages() {
    let mut s = storage(false);
    let data: Vec<u8> = (0..100u8).map(|x| x.wrapping_mul(3)).collect();
    s.write(slot(2), 20, &data).unwrap();
    let mut buf = vec![0u8; 100];
    s.read(slot(2), 20, &mut buf).unwrap();
    assert_eq!(buf, data);
    // bytes before and after the write keep what the host has
    let mut around = [0u8; 2];
    s.read(slot(2), 19, &mut around[..1]).unwrap();
    s.read(slot(2), 120, &mut around[1..]).unwrap();
    assert_eq!(around, [19, 120]);
}

#[test]
fn overlay_and_host_combine() {
    let mut s = storage(false);
    // page 1 of slot 4 is overridden entirely
    s.write(slot(4), 32, &[0xAA; 32]).unwrap();
    let mut buf = [0u8; 96];
    s.read(slot(4), 0, &mut buf).unwrap();
    for i in 0..32 {
        assert_eq!(buf[i], (i % 251) as u8);
    }
    for i in 32..64 {
        assert_eq!(buf[i], 0xAA);
    }
    for i in 64..96 {
        assert_eq!(buf[i], (i % 251) as u8);
    }
}

#[test]
fn full_page_write_needs_no_host() {
    let mut s = storage(true);
    // whole pages: the failing host is never asked
    assert!(s.write(slot(5), 64, &[1u8; 64]).is_ok());
    let mut buf = [0u8; 64];
    assert!(s.read(slot(5), 64, &mut buf).is_ok());
    assert_eq!(buf, [1u8; 64]);
}

#[test]
fn partial_write_without_overlay_asks_host() {
    let mut s = storage(true);
    assert_eq!(s.write(slot(6), 1, &[1, 2]), Err("host down".to_string()));
    assert!(s.read_page_override(PageID(slot(6), 0)).is_none());
    // a read of bytes not in the overlay fails with the host
    let mut buf = [0u8; 4];
    assert!(s.read(slot(6), 0, &mut buf).is_err());
}

#[test]
fn writes_do_not_touch_other_slots() {
    let mut s = storage(false);
    s.write(slot(8), 0, &[5u8; 32]).unwrap();
    s.write(slot(9), 0, &[6u8; 32]).unwrap();
    assert_eq!(s.read_page_override(PageID(slot(8), 0)), Some([5u8; 32]));
    assert_eq!(s.read_page_override(PageID(slot(9), 0)), Some([6u8; 32]));
    s.write(slot(8), 30, &[7, 7, 7, 7]).unwrap();
    let p0 = s.read_page_override(PageID(slot(8), 0)).unwrap();
    assert_eq!(&p0[..30], &[5u8; 30]);
    assert_eq!(&p0[30..], &[7, 7]);
    let p1 = s.read_page_override(PageID(slot(8), 1)).unwrap();
    assert_eq!(&p1[..2], &[7, 7]);
    assert_eq!(p1[2], 34);
    assert_eq!(s.read_page_override(PageID(slot(9), 0)), Some([6u8; 32]));
}

#[test]
fn write_page_then_override() {
    let mut s = storage(false);
    s.write_page(PageID(slot(10), 3), [9u8; 32]);
    assert_eq!(s.read_page_override(PageID(slot(10), 3)), Some([9u8; 32]));
    assert_eq!(s.read_page_override(PageID(slot(10), 2)), None);
    let mut buf = [0u8; 2];
    s.read(slot(10), 3 * 32 + 31, &mut buf).unwrap();
    assert_eq!(buf, [9, ((4 * 32) % 251) as u8]);
}

#[test]
fn empty_read_and_write() {
    let mut s = storage(true);
    let mut buf: [u8; 0] = [];
    assert!(s.read(slot(1), 10, &mut buf).is_ok());
    assert!(s.write(slot(1), 10, &[]).is_ok());
}

/// A host that counts the reads it answers.
struct CountingHost {
    reads: std::rc::Rc<std::cell::Cell<usize>>,
}

impl HostStorage for CountingHost {
    fn storage_read(&mut self, _slot_id: SlotID, index: u32, buf: &mut [u8]) -> Result<(), String> {
        self.reads.set(self.reads.get() + 1);
        for (k, b) in buf.iter_mut().enumerate() {
            *b = ((index as usize + k) % 251) as u8;
        }
        Ok(())
    }
}

#[test]
fn host_is_read_once_at_most_and_not_after_a_write() {
    let reads = std::rc::Rc::new(std::cell::Cell::new(0usize));
    let mut s = Storage::new(Address([7u8; 20]), CountingHost { reads: reads.clone() });
    // a read with no overlay asks the host once, for the whole range
    let mut buf = [0u8; 100];
    s.read(slot(1), 10, &mut buf).unwrap();
    assert_eq!(reads.get(), 1);
    // a write covering two pages in part completes each from the host
    s.write(slot(2), 20, &[1u8; 30]).unwrap();
    assert_eq!(reads.get(), 3);
    // reading back what was written asks nothing
    let mut back = [0u8; 30];
    s.read(slot(2), 20, &mut back).unwrap();
    assert_eq!(back, [1u8; 30]);
    assert_eq!(reads.get(), 3);
    // a write whose partial pages are already in the overlay asks nothing
    s.write(slot(2), 25, &[2u8; 10]).unwrap();
    assert_eq!(reads.get(), 3);
    // whole pages need no host
    s.write(slot(3), 64, &[3u8; 64]).unwrap();
    assert_eq!(reads.get(), 3);
}
