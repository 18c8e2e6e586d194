use cloudflow::error::{Error, ErrorKind, ErrorOrigin};
use cloudflow::fs::DirEntry;
use cloudflow::plugins::{entry_lookup, found_mapping, listed, map_entry, EntrySink, Mapped, PluginStore, Step};

#[test]
fn register_and_lookup() {
    let mut s: PluginStore<u32, &str> = PluginStore::new();
    assert!(s.register_mapping(1, "layout-a", None, "mem", 10));
    assert!(s.register_mapping(1, "layout-a", None, "info", 11));
    // a taken name keeps its first mapping
    assert!(!s.register_mapping(1, "layout-a", None, "mem", 12));
    assert_eq!(s.lookup_entry(1, "layout-a", None, "mem"), Some(&10));
    assert_eq!(s.lookup_entry(1, "layout-a", None, "info"), Some(&11));
    assert_eq!(s.lookup_entry(1, "layout-a", None, "x"), None);
    assert_eq!(s.entry_names(1, "layout-a", None), vec!["mem".to_string(), "info".to_string()]);
    // another kind gets its own list
    assert_eq!(s.lookup_entry(2, "layout-b", None, "mem"), None);
    assert_eq!(s.layout_list().len(), 2);
    // a kind compatible with the first layout shares its list
    assert_eq!(s.lookup_entry(3, "layout-c", Some(0), "mem"), Some(&10));
    assert_eq!(s.layout_list().len(), 2);
}

#[test]
fn entries_index_cases() {
    let mut s: PluginStore<u32, u8> = PluginStore::new();
    assert_eq!(s.entries_index(5, 0, None), 0);
    assert_eq!(s.entries_index(6, 1, None), 1);
    assert_eq!(s.entries_index(5, 9, None), 0);
    assert_eq!(s.entries_index(7, 2, Some(1)), 1);
    // a position past the kept layouts is no compatible layout
    assert_eq!(s.entries_index(8, 3, Some(9)), 2);
}

#[test]
fn map_entry_cases() {
    let r: Result<Step<u8, u16>, Error> = map_entry(Some("x/y"), Mapped::Branch(Some(1u8)));
    assert!(matches!(r, Ok(Step::Follow(1, "x/y"))));
    let r: Result<Step<u8, u16>, Error> = map_entry(None, Mapped::Branch(Some(1u8)));
    assert!(matches!(r, Ok(Step::Done(DirEntry::Branch(1)))));
    let r: Result<Step<u8, u16>, Error> = map_entry(None, Mapped::Leaf(Some(2u16)));
    assert!(matches!(r, Ok(Step::Done(DirEntry::Leaf(2)))));
    let r: Result<Step<u8, u16>, Error> = map_entry(Some("a"), Mapped::Leaf(Some(2u16)));
    assert_eq!(r.err(), Some(Error(ErrorOrigin::Other, ErrorKind::NotFound)));
    let r: Result<Step<u8, u16>, Error> = map_entry(None, Mapped::Branch(None));
    assert_eq!(r.err(), Some(Error(ErrorOrigin::Other, ErrorKind::NotFound)));
}

#[test]
fn lookup_helpers() {
    assert_eq!(entry_lookup("mem/x"), ("mem", Some("x")));
    assert_eq!(entry_lookup("mem"), ("mem", None));
    assert_eq!(found_mapping(Some(3)), Ok(3));
    assert_eq!(found_mapping::<u8>(None), Err(Error(ErrorOrigin::Other, ErrorKind::NotFound)));
}

#[test]
fn listing_keeps_entries_that_map() {
    let rs: Vec<(String, Mapped<u8, u16>)> = vec![
        ("a".to_string(), Mapped::Branch(Some(1))),
        ("b".to_string(), Mapped::Leaf(None)),
        ("c".to_string(), Mapped::Leaf(Some(3))),
    ];
    let out = listed(rs);
    assert_eq!(out.len(), 2);
    assert_eq!(out[0].0, "a");
    assert!(matches!(out[0].1, DirEntry::Branch(1)));
    assert_eq!(out[1].0, "c");
    assert!(matches!(out[1].1, DirEntry::Leaf(3)));
}

struct TakeSome {
    got: Vec<(String, u32)>,
    want: usize,
}

impl EntrySink<u32> for TakeSome {
    fn entry(&mut self, name: &str, mapping: &u32) -> bool {
        self.got.push((name.to_string(), *mapping));
        self.got.len() < self.want
    }
}

#[test]
fn entry_list_stops_when_asked() {
    let mut s: PluginStore<u32, &str> = PluginStore::new();
    assert!(s.register_mapping(1, "layout-a", None, "mem", 10));
    assert!(s.register_mapping(1, "layout-a", None, "info", 11));
    assert!(s.register_mapping(1, "layout-a", None, "maps", 12));
    let mut all = TakeSome { got: vec![], want: 10 };
    s.entry_list(1, "layout-a", None, &mut all);
    assert_eq!(all.got, vec![("mem".to_string(), 10), ("info".to_string(), 11), ("maps".to_string(), 12)]);
    let mut one = TakeSome { got: vec![], want: 1 };
    s.entry_list(1, "layout-a", None, &mut one);
    assert_eq!(one.got, vec![("mem".to_string(), 10)]);
    // a registration for another kind keeps the first kind's mappings
    assert!(s.register_mapping(2, "layout-b", None, "mem", 20));
    assert_eq!(s.lookup_entry(1, "layout-a", None, "mem"), Some(&10));
    assert_eq!(s.lookup_entry(2, "layout-b", None, "mem"), Some(&20));
}
