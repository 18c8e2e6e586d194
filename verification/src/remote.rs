//! The memory connector that reaches a machine through the daemon: the requests it
//! builds from reads and writes, and how it fills reads from the answers.
use vstd::prelude::*;

verus! {

/// Why a daemon connector cannot be made.
#[derive(Copy, Clone, Debug, PartialEq, Eq, Structural)]
pub enum ConnectorArgError {
    /// Neither a `host` argument nor a default argument.
    MissingHost,
    /// No `id` argument.
    MissingId,
}

impl ConnectorArgError {
    /// The message the connector fails with.
    pub fn message(&self) -> (s: &'static str)
        ensures
            *self == ConnectorArgError::MissingHost ==> s@ == "host argument is missing"@,
            *self == ConnectorArgError::MissingId ==> s@ == "id argument is missing"@,
    {
        match self {
            ConnectorArgError::MissingHost => "host argument is missing",
            ConnectorArgError::MissingId => "id argument is missing",
        }
    }
}

/// The daemon address and connection id of a daemon connector: the `host` argument,
/// else the default argument; and the `id` argument.
pub fn connector_params<'a>(host: Option<&'a str>, default: Option<&'a str>, id: Option<&'a str>) -> (r:
    Result<(&'a str, &'a str), ConnectorArgError>)
    ensures
        match (host, default, id) {
            (None, None, _) => r == Err::<(&'a str, &'a str), ConnectorArgError>(ConnectorArgError::MissingHost),
            (_, _, None) => (host is Some || default is Some) && r == Err::<(&'a str, &'a str), ConnectorArgError>(
                ConnectorArgError::MissingId,
            ),
            (Some(h), _, Some(i)) => r == Ok::<(&'a str, &'a str), ConnectorArgError>((h, i)),
            (None, Some(d), Some(i)) => r == Ok::<(&'a str, &'a str), ConnectorArgError>((d, i)),
        },
{
    let addr = match host {
        Some(h) => h,
        None => match default {
            Some(d) => d,
            None => {
                return Err(ConnectorArgError::MissingHost);
            },
        },
    };
    match id {
        Some(i) => Ok((addr, i)),
        None => Err(ConnectorArgError::MissingId),
    }
}

/// The read entries of a physical read request: each read's address and length.
pub fn read_entries(reads: &Vec<(u64, Vec<u8>)>) -> (r: Vec<(u64, u64)>)
    ensures
        r@.len() == reads@.len(),
        forall|i: int| 0 <= i < r@.len() ==> r@[i] == (reads@[i].0, reads@[i].1@.len() as u64),
{
    let mut r: Vec<(u64, u64)> = Vec::new();
    let mut i: usize = 0;
    while i < reads.len()
        invariant
            i <= reads.len(),
            r@.len() == i,
            forall|k: int| 0 <= k < i ==> r@[k] == (reads@[k].0, reads@[k].1@.len() as u64),
        decreases reads.len() - i,
    {
        let n = reads[i].1.len();
        r.push((reads[i].0, n as u64));
        i = i + 1;
    }
    r
}

/// Fills the reads with the data that came back, pair by pair in order, as far as both
/// lists go. Each answer has exactly the length of its read.
pub fn fill_reads(reads: &mut Vec<(u64, Vec<u8>)>, answers: &Vec<Vec<u8>>)
    requires
        forall|i: int|
            0 <= i < old(reads)@.len() && i < answers@.len() ==> old(reads)@[i].1@.len()
                == answers@[i]@.len(),
    ensures
        final(reads)@.len() == old(reads)@.len(),
        forall|i: int|
            0 <= i < final(reads)@.len() ==> final(reads)@[i].0 == old(reads)@[i].0 && final(reads)@[i].1@
                == if i < answers@.len() {
                answers@[i]@
            } else {
                old(reads)@[i].1@
            },
{
    let n = reads.len();
    let mut i: usize = 0;
    while i < n && i < answers.len()
        invariant
            n == reads@.len(),
            n == old(reads)@.len(),
            i <= n,
            i <= answers@.len(),
            forall|k: int|
                0 <= k < old(reads)@.len() && k < answers@.len() ==> old(reads)@[k].1@.len()
                    == answers@[k]@.len(),
            forall|k: int|
                0 <= k < n ==> reads@[k].0 == old(reads)@[k].0 && reads@[k].1@ == if k < i {
                    answers@[k]@
                } else {
                    old(reads)@[k].1@
                },
        decreases n - i,
    {
        let addr = reads[i].0;
        let data = answers[i].clone();
        reads.set(i, (addr, data));
        i = i + 1;
    }
}

/// The write entries of a physical write request: each write's address and bytes.
pub fn write_entries(writes: &Vec<(u64, Vec<u8>)>) -> (r: Vec<(u64, Vec<u8>)>)
    ensures
        r@.len() == writes@.len(),
        forall|i: int| 0 <= i < r@.len() ==> r@[i].0 == writes@[i].0 && r@[i].1@ == writes@[i].1@,
{
    let mut r: Vec<(u64, Vec<u8>)> = Vec::new();
    let mut i: usize = 0;
    while i < writes.len()
        invariant
            i <= writes.len(),
            r@.len() == i,
            forall|k: int| 0 <= k < i ==> r@[k].0 == writes@[k].0 && r@[k].1@ == writes@[k].1@,
        decreases writes.len() - i,
    {
        r.push((writes[i].0, writes[i].1.clone()));
        i = i + 1;
    }
    r
}

} // verus!
