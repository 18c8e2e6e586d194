use cloudflow::memmaps::{format_maps, format_perms, format_phys_maps, line_module, module_outcome, module_request};
use cloudflow::procfs::ModuleSpan;

#[test]
fn perms() {
    assert_eq!(format_perms(true, false), "rwx");
    assert_eq!(format_perms(false, true), "r--");
    assert_eq!(format_perms(true, true), "rw-");
    assert_eq!(format_perms(false, false), "r-x");
}

fn mods() -> Vec<(u64, u64, String)> {
    vec![
        (0x2000, 0x1000, "b.dll".to_string()),
        (0x1000, 0x3000, "a.exe".to_string()),
        (0x1000, 0x100, "c.dll".to_string()),
    ]
}

#[test]
fn module_of_address() {
    let m = mods();
    // contained by a.exe (base 0x1000) and b.dll (base 0x2000): the lowest base wins
    assert_eq!(line_module(&m, 0x2800), Some(1));
    // contained by a.exe and c.dll, same base: the earlier one wins
    assert_eq!(line_module(&m, 0x1000), Some(1));
    assert_eq!(line_module(&m, 0x9000), None);
}

#[test]
fn maps_text() {
    let m = mods();
    let maps = vec![(0x1000u64, 0x1000u64, false, false), (0x2000, 0x800, true, true), (0x9000, 0x10, true, false)];
    let text = format_maps(&maps, &m);
    assert_eq!(text, "1000-2000 r-x a.exe\n2000-2800 rw- a.exe\n9000-9010 rwx \n");
    assert_eq!(format_maps(&vec![], &m), "");
}

#[test]
fn phys_maps_text() {
    let m = mods();
    let maps = vec![(0x1000u64, 0x1000u64, 0xabcu64, true, false), (0x9000, 0x10, 0x123456789a, false, true)];
    let text = format_phys_maps(&maps, &m);
    assert_eq!(text, format!("1000-2000 rwx {:9x} a.exe\n9000-9010 r-- {:9x} \n", 0xabcu64, 0x123456789au64));
    assert_eq!(text, "1000-2000 rwx       abc a.exe\n9000-9010 r-- 123456789a \n");
}

#[test]
fn module_window() {
    let m = ModuleSpan { base: 0x10000, size: 0x100 };
    // fully inside
    assert_eq!(module_request(m, 0x10, 0x10, 0x20), vec![(0x10010, 0x10010, 0, 0x20)]);
    // crosses the end of the module
    assert_eq!(module_request(m, 0xf0, 0xf0, 0x20), vec![(0x100f0, 0x100f0, 0, 0x10), (0x10100, 0x10100, 0x10, 0x10)]);
    // starts at the end
    assert_eq!(module_request(m, 0x100, 0x100, 0x8), vec![(0x10100, 0x10100, 0, 0x8)]);
    assert_eq!(module_request(m, 0x10, 0x10, 0), vec![]);
    assert_eq!(module_outcome(m, 0x10010), (true, 0x10));
    assert_eq!(module_outcome(m, 0x10100), (false, 0x100));
}
