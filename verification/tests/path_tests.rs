use cloudflow::path::{mount_path, split_args, split_path};

#[test]
fn split_path_cases() {
    assert_eq!(split_path("a/b/c"), ("a", Some("b/c")));
    assert_eq!(split_path("abc"), ("abc", None));
    assert_eq!(split_path("/x"), ("", Some("x")));
    assert_eq!(split_path(""), ("", None));
}

#[test]
fn split_args_cases() {
    assert_eq!(split_args("  -c foo bar:baz "), (Some("foo"), "bar", "baz"));
    assert_eq!(split_args("-c foo"), (Some("foo"), "", ""));
    assert_eq!(split_args("qemu:vm=1"), (None, "qemu", "vm=1"));
    assert_eq!(split_args("win32"), (None, "win32", ""));
    assert_eq!(split_args("  -c   conn   os:a:b"), (Some("conn"), "  os", "a:b"));
}

#[test]
fn mount_path_cases() {
    let comps = vec![String::from("/"), String::from("a"), String::from("b")];
    assert_eq!(mount_path(&comps), "a/b");
    let comps = vec![String::from("/")];
    assert_eq!(mount_path(&comps), "");
    let comps = vec![String::from("/"), String::from("/x"), String::from("y")];
    assert_eq!(mount_path(&comps), "x/y");
}
