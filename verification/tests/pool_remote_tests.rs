use cloudflow::pool::{Taken, ThreadCtx};
use cloudflow::remote::{connector_params, fill_reads, read_entries, write_entries, ConnectorArgError};

#[test]
fn pool_hands_out_copies() {
    let mut c = ThreadCtx::new(String::from("orig"), 2);
    let a = match c.get() {
        Taken::Fresh(v) => v,
        _ => panic!("expected a fresh copy"),
    };
    assert_eq!(a, "orig");
    let _b = match c.get() {
        Taken::Fresh(v) => v,
        _ => panic!("expected a fresh copy"),
    };
    assert!(matches!(c.get(), Taken::Empty));
    c.put(String::from("changed"));
    match c.get() {
        Taken::Reused(v) => assert_eq!(v, "changed"),
        _ => panic!("expected the copy given back"),
    }
    let mut z: ThreadCtx<u8> = ThreadCtx::new(1, 0);
    assert!(matches!(z.get(), Taken::Empty));
}

#[test]
fn connector_arguments() {
    assert_eq!(connector_params(Some("tcp://h"), Some("d"), Some("id1")), Ok(("tcp://h", "id1")));
    assert_eq!(connector_params(None, Some("d"), Some("id1")), Ok(("d", "id1")));
    assert_eq!(connector_params(None, None, Some("id1")), Err(ConnectorArgError::MissingHost));
    assert_eq!(connector_params(Some("h"), None, None), Err(ConnectorArgError::MissingId));
    assert_eq!(ConnectorArgError::MissingHost.message(), "host argument is missing");
    assert_eq!(ConnectorArgError::MissingId.message(), "id argument is missing");
}

#[test]
fn reads_and_writes() {
    let mut reads = vec![(0x10u64, vec![0u8; 2]), (0x20, vec![0u8; 3])];
    assert_eq!(read_entries(&reads), vec![(0x10, 2), (0x20, 3)]);
    fill_reads(&mut reads, &vec![vec![1, 2], vec![3, 4, 5]]);
    assert_eq!(reads, vec![(0x10, vec![1, 2]), (0x20, vec![3, 4, 5])]);
    let mut reads = vec![(0x10u64, vec![0u8; 2]), (0x20, vec![9u8; 1])];
    fill_reads(&mut reads, &vec![vec![7, 7]]);
    assert_eq!(reads, vec![(0x10, vec![7, 7]), (0x20, vec![9])]);
    let w = vec![(0x30u64, vec![1u8, 2])];
    assert_eq!(write_entries(&w), w);
}
