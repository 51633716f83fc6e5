use std::collections::HashMap;
use std::sync::Arc;
use snapshotted_app::addr_map::AddrMap;
use snapshotted_app::modules::{ModuleEvent, ModuleProgress};
use snapshotted_app::regs::Register;
use snapshotted_app::rng::Rng;
use snapshotted_app::snapshot::NetBacking;
use snapshotted_app::worker::{Module, Worker};

fn worker() -> Worker<()> {
    let backing = NetBacking { memory: Vec::new(), phys_ranges: AddrMap::new() };
    let mut w = Worker::from_net(Arc::new(backing), Rng { seed: 1 });
    w.vm.set_reg(Register::GsBase, 0x1000);
    w
}

/// Memory that holds 16-bit units.
struct Memory {
    units: HashMap<u64, u16>,
}

impl Memory {
    fn put(&mut self, addr: u64, value: u64, width: u64) {
        for i in 0..width / 2 {
            self.units.insert(addr + 2 * i, (value >> (16 * i)) as u16);
        }
    }

    fn get(&self, addr: u64, width: usize) -> Option<u64> {
        let mut value = 0;
        for i in 0..(width / 2) as u64 {
            value |= (*self.units.get(&(addr + 2 * i))? as u64) << (16 * i);
        }
        Some(value)
    }

    fn module(&mut self, at: u64, next: u64, base: u64, size: u64, name: &[u16]) {
        self.put(at, next, 8);
        self.put(at + 0x30, base, 8);
        self.put(at + 0x40, size, 4);
        self.put(at + 0x58, 2 * name.len() as u64, 2);
        self.put(at + 0x60, at + 0x100, 8);
        for (i, unit) in name.iter().enumerate() {
            self.put(at + 0x100 + 2 * i as u64, *unit as u64, 2);
        }
    }
}

fn process(flink: u64, blink: u64) -> Memory {
    let mut m = Memory { units: HashMap::new() };
    m.put(0x1060, 0x2000, 8);
    m.put(0x2018, 0x3000, 8);
    m.put(0x3010, flink, 8);
    m.put(0x3018, blink, 8);
    m
}

fn run(w: &mut Worker<()>, m: &Memory) -> bool {
    let mut progress = w.get_module_list_win64(ModuleEvent::Start);
    for _ in 0..1000 {
        match progress {
            ModuleProgress::Read(walk) => {
                let request = walk.request();
                let value = m.get(request.addr, request.width);
                assert!(walk.accepts(value));
                progress = w.get_module_list_win64(ModuleEvent::Value { walk, value });
            }
            ModuleProgress::Complete => return true,
            ModuleProgress::Failed => return false,
        }
    }
    panic!("no end");
}

fn text(s: &str) -> Vec<u16> {
    s.encode_utf16().collect()
}

#[test]
fn module_list_is_read_in_load_order() {
    let mut m = process(0x4000, 0x5000);
    m.module(0x4000, 0x5000, 0x7ff6_0000, 0x1000, &text("app.exe"));
    m.module(0x5000, 0x4000, 0x7ffa_0000, 0x20, &text("nt\u{10437}.dll"));
    let mut w = worker();
    assert!(run(&mut w, &m));
    assert_eq!(w.module_list.floor(0x7ff9_ffff).unwrap().0, 0x7ff6_0000);
    assert_eq!(w.module_list.floor(u64::MAX).unwrap().0, 0x7ffa_0000);
    let (name, offset) = w.resolve_module(0x7ff6_0fff);
    assert_eq!((name.unwrap().as_str(), offset), ("app.exe", 0xfff));
    let (name, offset) = w.resolve_module(0x7ffa_0000);
    assert_eq!((name.unwrap().as_str(), offset), ("nt\u{10437}.dll", 0));
    assert_eq!(w.resolve_module(0x7ff6_1000), (None, 0x7ff6_1000));
    assert_eq!(w.resolve_module(0x7ffa_0020), (None, 0x7ffa_0020));
    assert_eq!(w.resolve_module(0x10), (None, 0x10));
}

#[test]
fn module_list_ends_at_a_null_link() {
    let mut m = process(0x4000, 0x9000);
    m.module(0x4000, 0, 0x10000, 1, &text("a"));
    let mut w = worker();
    assert!(run(&mut w, &m));
    assert_eq!(w.resolve_module(0x10000).0.unwrap().as_str(), "a");
    let mut w = worker();
    assert!(run(&mut w, &process(0, 0)));
    assert!(w.module_list.floor(u64::MAX).is_none());
}

#[test]
fn module_list_is_kept_if_the_new_one_cannot_be_read() {
    let mut w = worker();
    w.module_list.insert(5, Module { end: 9, name: Arc::new(String::from("old")) });
    // No memory at all
    assert!(!run(&mut w, &Memory { units: HashMap::new() }));
    // A module without a size
    let mut m = process(0x4000, 0x4000);
    m.module(0x4000, 0, 0x10000, 0, &text("a"));
    assert!(!run(&mut w, &m));
    // A module without a name
    m.module(0x4000, 0, 0x10000, 4, &text(""));
    assert!(!run(&mut w, &m));
    // A name of an odd length
    m.module(0x4000, 0, 0x10000, 4, &text("abc"));
    m.put(0x4058, 3, 2);
    assert!(!run(&mut w, &m));
    // A name without an address
    m.module(0x4000, 0, 0x10000, 4, &text("abc"));
    m.put(0x4060, 0, 8);
    assert!(!run(&mut w, &m));
    // A name that ends in a lone surrogate
    m.module(0x4000, 0, 0x10000, 4, &[0x61, 0xd801]);
    assert!(!run(&mut w, &m));
    m.module(0x4000, 0, 0x10000, 4, &[0xdc01, 0x61]);
    assert!(!run(&mut w, &m));
    // A module that runs over the end of memory
    m.module(0x4000, 0, u64::MAX - 2, 4, &text("abc"));
    assert!(!run(&mut w, &m));
    // A name that runs over the end of memory
    m.module(0x4000, 0, 0x10000, 4, &text("abc"));
    m.put(0x4060, u64::MAX - 1, 8);
    m.units.insert(u64::MAX - 1, 0x61);
    assert!(!run(&mut w, &m));
    assert_eq!(w.resolve_module(7).0.unwrap().as_str(), "old");
    // The last module that fits
    m.module(0x4000, 0, u64::MAX - 3, 4, &text("abc"));
    assert!(run(&mut w, &m));
    assert_eq!(w.resolve_module(u64::MAX).1, 3);
}

#[test]
fn module_values_can_be_refused() {
    let mut w = worker();
    match w.get_module_list_win64(ModuleEvent::Start) {
        ModuleProgress::Read(walk) => {
            assert_eq!((walk.request().addr, walk.request().width), (0x1060, 8));
            assert!(walk.accepts(None));
            assert!(walk.accepts(Some(u64::MAX - 0x18)));
            assert!(!walk.accepts(Some(u64::MAX)));
        }
        _ => panic!("no read"),
    }
}
